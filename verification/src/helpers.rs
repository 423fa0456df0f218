//! Error types and small shared helpers.

use vstd::prelude::*;
use vstd::std_specs::slice::into_iter_elts;

verus! {

/// Why a Tmux window could not be opened.
#[derive(Clone, Copy, Debug, PartialEq, Eq, Structural)]
pub enum IvyError {
    /// Executing the Tmux command failed
    TmuxSpawnFailed,
}

/// Why the control-mode connection ends.
#[derive(Clone, Copy, Debug, PartialEq, Eq, Structural)]
pub enum TmuxError {
    EventChannelClosed,
    ExitEventReceived,
    ErrorParsingUTF8,
}

/// The program that opens an editor on `path`, and its arguments; `None`
/// where there is no path. The pane path comes from Tmux (possibly a remote
/// session); "--" keeps a path that looks like an option positional.
pub fn open_editor(path: &str) -> (r: Option<(String, Vec<String>)>)
    ensures
        r is None <==> path@.len() == 0,
        r matches Some((program, args)) ==> program@ == "code"@ && args@.len() == 2 && args@[0]@
            == "--"@ && args@[1]@ == path@,
{
    if path.is_empty() {
        return None;
    }
    let mut args: Vec<String> = Vec::new();
    args.push("--".to_string());
    args.push(path.to_string());
    Some(("code".to_string(), args))
}

/// The rows and columns of the terminal that the Tmux command runs on. A real
/// (nonzero) size matters: transports forward it. Tmux itself ignores it.
pub const SPAWN_ROWS: u16 = 24;

pub const SPAWN_COLS: u16 = 80;

/// The TERM of the Tmux command: one that is available everywhere.
pub const SPAWN_TERM: &'static str = "xterm-256color";

/// The program of a command and its arguments, taken as they are; a command
/// without a program cannot be run.
pub fn split_command(argv: &[String]) -> (r: Result<(String, Vec<String>), IvyError>)
    ensures
        r is Ok <==> argv@.len() > 0,
        r matches Ok((program, args)) ==> program@ == argv@[0]@ && args@.len() == argv@.len() - 1
            && forall|i: int| 0 <= i < args@.len() ==> (#[trigger] args@[i])@ == argv@[i + 1]@,
        r matches Err(err) ==> err == IvyError::TmuxSpawnFailed,
{
    if argv.len() == 0 {
        return Err(IvyError::TmuxSpawnFailed);
    }
    let mut args: Vec<String> = Vec::new();
    let mut i: usize = 1;
    while i < argv.len()
        invariant
            1 <= i <= argv@.len(),
            args@.len() == i - 1,
            forall|j: int| 0 <= j < args@.len() ==> (#[trigger] args@[j])@ == argv@[j + 1]@,
        decreases argv@.len() - i,
    {
        args.push(argv[i].clone());
        i += 1;
    }
    Ok((argv[0].clone(), args))
}

/// Whether a click opens the link under it: a single click of the primary
/// button, with Ctrl held.
pub fn opens_link(primary_button: bool, n_clicked: i32, ctrl_held: bool) -> (r: bool)
    ensures
        r == (primary_button && n_clicked == 1 && ctrl_held),
{
    primary_button && n_clicked == 1 && ctrl_held
}

// ---------------------------------------------------------------------------
// Sorted lists
// ---------------------------------------------------------------------------

/// A value and the number that it is found by.
#[derive(Debug, PartialEq, Eq)]
pub struct WithId<T> {
    pub id: u32,
    pub terminal: T,
}

/// Values found by number, in the order of their numbers.
#[derive(Debug)]
pub struct SortedVec<T> {
    terminals: Vec<WithId<T>>,
}

impl<T> View for SortedVec<T> {
    type V = Seq<WithId<T>>;

    closed spec fn view(&self) -> Seq<WithId<T>> {
        self.terminals@
    }
}

/// Whether the entries are in the order of their numbers.
pub open spec fn is_sorted<T>(entries: Seq<WithId<T>>) -> bool {
    forall|i: int, j: int|
        0 <= i <= j < entries.len() ==> (#[trigger] entries[i]).id <= (#[trigger] entries[j]).id
}

/// Whether the numbers do not decrease.
pub open spec fn in_order(numbers: Seq<u32>) -> bool {
    forall|i: int, j: int|
        0 <= i <= j < numbers.len() ==> #[trigger] numbers[i] <= #[trigger] numbers[j]
}

/// Whether some entry has the number `id`.
pub open spec fn has_id<T>(entries: Seq<WithId<T>>, id: u32) -> bool {
    exists|i: int| 0 <= i < entries.len() && (#[trigger] entries[i]).id == id
}

/// The entries whose flag is set.
pub open spec fn flagged<T>(entries: Seq<WithId<T>>, flags: Seq<bool>) -> Seq<WithId<T>>
    decreases entries.len(),
{
    if entries.len() == 0 || flags.len() != entries.len() {
        Seq::empty()
    } else {
        let front = flagged(entries.drop_last(), flags.drop_last());
        if flags.last() {
            front.push(entries.last())
        } else {
            front
        }
    }
}

impl<T> Default for SortedVec<T> {
    fn default() -> (r: SortedVec<T>)
        ensures
            r@ == Seq::<WithId<T>>::empty(),
    {
        SortedVec { terminals: Vec::new() }
    }
}

impl<T> SortedVec<T> {
    /// The first position whose number is at least `id`.
    fn lower_bound(&self, id: u32) -> (at: usize)
        requires
            is_sorted(self@),
        ensures
            at <= self@.len(),
            forall|i: int| 0 <= i < at ==> (#[trigger] self@[i]).id < id,
            forall|i: int| at <= i < self@.len() ==> (#[trigger] self@[i]).id >= id,
    {
        let mut low: usize = 0;
        let mut high: usize = self.terminals.len();
        while low < high
            invariant
                is_sorted(self@),
                low <= high <= self@.len(),
                forall|i: int| 0 <= i < low ==> (#[trigger] self@[i]).id < id,
                forall|i: int| high <= i < self@.len() ==> (#[trigger] self@[i]).id >= id,
            decreases high - low,
        {
            let middle: usize = low + (high - low) / 2;
            if self.terminals[middle].id < id {
                assert(self@[middle as int].id < id);
                low = middle + 1;
            } else {
                assert(self@[middle as int].id >= id);
                high = middle;
            }
        }
        low
    }

    /// The position of an entry with the number `id`.
    fn find(&self, id: u32) -> (r: Option<usize>)
        requires
            is_sorted(self@),
        ensures
            r is Some <==> has_id(self@, id),
            r matches Some(i) ==> i < self@.len() && self@[i as int].id == id,
    {
        let at: usize = self.lower_bound(id);
        if at < self.terminals.len() && self.terminals[at].id == id {
            assert(self@[at as int].id == id);
            Some(at)
        } else {
            None
        }
    }

    /// Removes an entry with the number `id` and returns its value.
    pub fn remove(&mut self, id: u32) -> (r: Option<T>)
        requires
            is_sorted(old(self)@),
        ensures
            is_sorted(final(self)@),
            r is Some <==> has_id(old(self)@, id),
            r is None ==> final(self)@ == old(self)@,
            r matches Some(value) ==> exists|i: int|
                0 <= i < old(self)@.len() && (#[trigger] old(self)@[i]).id == id && value
                    == old(self)@[i].terminal && final(self)@ == old(self)@.remove(i),
    {
        match self.find(id) {
            Some(index) => {
                assert(old(self)@[index as int].id == id);
                let entry = self.terminals.remove(index);
                Some(entry.terminal)
            },
            None => None,
        }
    }

    /// The entries, in the order of their numbers.
    pub fn iter(&self) -> (entries: std::slice::Iter<'_, WithId<T>>)
        ensures
            into_iter_elts(entries) == self@,
    {
        self.terminals.iter()
    }

    /// The entry at a position.
    pub fn entry(&self, index: usize) -> (entry: &WithId<T>)
        requires
            index < self@.len(),
        ensures
            *entry == self@[index as int],
    {
        &self.terminals[index]
    }

    pub fn len(&self) -> (n: usize)
        ensures
            n == self@.len(),
    {
        self.terminals.len()
    }

    /// Keeps the entries for which `f` returns true.
    pub fn retain<F: Fn(&WithId<T>) -> bool>(&mut self, f: F)
        requires
            forall|i: int| 0 <= i < old(self)@.len() ==> f.requires((&#[trigger] old(self)@[i],)),
            is_sorted(old(self)@),
        ensures
            is_sorted(final(self)@),
            exists|flags: Seq<bool>|
                flags.len() == old(self)@.len() && #[trigger] flagged(old(self)@, flags)
                    == final(self)@ && forall|i: int|
                    0 <= i < flags.len() ==> f.ensures((&old(self)@[i],), #[trigger] flags[i]),
    {
        let ghost all = self@;
        let ghost mut flags: Seq<bool> = Seq::empty();
        let mut kept: Vec<WithId<T>> = Vec::new();
        let mut rest: Vec<WithId<T>> = Vec::new();
        rest.append(&mut self.terminals);
        assert(rest@ =~= all);
        for entry in it: rest
            invariant
                it.seq() == all,
                is_sorted(all),
                forall|i: int| 0 <= i < all.len() ==> f.requires((&#[trigger] all[i],)),
                flags.len() == it.index(),
                forall|i: int| 0 <= i < flags.len() ==> f.ensures((&all[i],), #[trigger] flags[i]),
                kept@ == flagged(all.take(it.index() as int), flags),
        {
            let ghost n = it.index() as int;
            assert(entry == all[n]);
            let keep = f(&entry);
            proof {
                let before = flags;
                flags = flags.push(keep);
                assert(flags.drop_last() =~= before);
                assert(all.take(n + 1).drop_last() =~= all.take(n));
                assert(all.take(n + 1).last() == all[n]);
            }
            if keep {
                kept.push(entry);
            }
        }
        assert(all.take(all.len() as int) =~= all);
        self.terminals = kept;
        proof {
            lemma_flagged_sorted(all, flags);
        }
    }

    pub fn clear(&mut self)
        ensures
            final(self)@ == Seq::<WithId<T>>::empty(),
    {
        self.terminals.clear();
    }
}

proof fn lemma_flagged_sorted<T>(entries: Seq<WithId<T>>, flags: Seq<bool>)
    requires
        is_sorted(entries),
    ensures
        is_sorted(flagged(entries, flags)),
        flagged(entries, flags).len() > 0 ==> entries.len() > 0 && flagged(entries, flags).last().id
            <= entries.last().id,
    decreases entries.len(),
{
    if entries.len() > 0 && flags.len() == entries.len() {
        let front = entries.drop_last();
        assert forall|i: int, j: int| 0 <= i <= j < front.len() implies (#[trigger] front[i]).id
            <= (#[trigger] front[j]).id by {
            assert(entries[i].id <= entries[j].id);
        }
        lemma_flagged_sorted(front, flags.drop_last());
        let kept = flagged(front, flags.drop_last());
        if front.len() > 0 {
            assert(entries[front.len() - 1].id <= entries[front.len() as int].id);
        }
        if flags.last() {
            let all = kept.push(entries.last());
            assert forall|i: int, j: int| 0 <= i <= j < all.len() implies (#[trigger] all[i]).id
                <= (#[trigger] all[j]).id by {
                if j == kept.len() && i < j {
                    assert(kept[i].id <= kept[kept.len() - 1].id);
                }
            }
        }
    }
}

impl<T: Clone> SortedVec<T> {
    /// Adds a copy of `terminal` under the number `id` and returns its
    /// position.
    pub fn insert(&mut self, id: u32, terminal: &T) -> (at: usize)
        requires
            is_sorted(old(self)@),
        ensures
            is_sorted(final(self)@),
            at <= old(self)@.len(),
            final(self)@.len() == old(self)@.len() + 1,
            final(self)@ == old(self)@.insert(at as int, final(self)@[at as int]),
            final(self)@[at as int].id == id,
            cloned(*terminal, final(self)@[at as int].terminal),
    {
        let at: usize = self.lower_bound(id);
        let entry = WithId { id, terminal: terminal.clone() };
        self.terminals.insert(at, entry);
        proof {
            let before = old(self)@;
            let after = self@;
            assert forall|i: int, j: int| 0 <= i <= j < after.len() implies (#[trigger] after[i]).id
                <= (#[trigger] after[j]).id by {
                let a = if i < at {
                    i
                } else {
                    i - 1
                };
                let b = if j < at {
                    j
                } else {
                    j - 1
                };
                if i != at {
                    assert(after[i] == before[a]);
                }
                if j != at {
                    assert(after[j] == before[b]);
                }
            }
        }
        at
    }

    /// As `insert`, for an entry that most often goes to the end.
    pub fn push(&mut self, id: u32, terminal: &T) -> (at: usize)
        requires
            is_sorted(old(self)@),
        ensures
            is_sorted(final(self)@),
            at <= old(self)@.len(),
            final(self)@.len() == old(self)@.len() + 1,
            final(self)@ == old(self)@.insert(at as int, final(self)@[at as int]),
            final(self)@[at as int].id == id,
            cloned(*terminal, final(self)@[at as int].terminal),
            old(self)@.len() == 0 || old(self)@.last().id <= id ==> at == old(self)@.len(),
    {
        let n: usize = self.terminals.len();
        if n == 0 || self.terminals[n - 1].id <= id {
            // Not less than the current last entry, so it goes behind it
            self.terminals.push(WithId { id, terminal: terminal.clone() });
            assert(self@ =~= old(self)@.insert(n as int, self@[n as int]));
            n
        } else {
            self.insert(id, terminal)
        }
    }

    /// A copy of a value with the number `id`.
    pub fn get(&self, id: u32) -> (r: Option<T>)
        requires
            is_sorted(self@),
        ensures
            r is Some <==> has_id(self@, id),
            r matches Some(value) ==> exists|i: int|
                0 <= i < self@.len() && (#[trigger] self@[i]).id == id && cloned(
                    self@[i].terminal,
                    value,
                ),
    {
        match self.find(id) {
            Some(index) => Some(self.terminals[index].terminal.clone()),
            None => None,
        }
    }
}

// ---------------------------------------------------------------------------
// Laws
// ---------------------------------------------------------------------------

/// An entry that was added is found, and those that were there before still
/// are.
pub proof fn law_added_entries_are_found<T>(before: Seq<WithId<T>>, at: int, entry: WithId<T>, id: u32)
    requires
        0 <= at <= before.len(),
    ensures
        has_id(before.insert(at, entry), id) == (entry.id == id || has_id(before, id)),
{
    let after = before.insert(at, entry);
    assert(after[at] == entry);
    if has_id(before, id) {
        let i = choose|i: int| 0 <= i < before.len() && (#[trigger] before[i]).id == id;
        assert(after[if i < at { i } else { i + 1 }] == before[i]);
    }
    if has_id(after, id) && entry.id != id {
        let i = choose|i: int| 0 <= i < after.len() && (#[trigger] after[i]).id == id;
        assert(before[if i < at { i } else { i - 1 }] == after[i]);
    }
}

/// An entry that was removed is not found anymore, where no other one has its
/// number, and the others still are.
pub proof fn law_removed_entries_are_gone<T>(before: Seq<WithId<T>>, at: int, id: u32)
    requires
        0 <= at < before.len(),
        forall|i: int|
            0 <= i < before.len() && i != at ==> (#[trigger] before[i]).id != before[at].id,
    ensures
        has_id(before.remove(at), id) == (before[at].id != id && has_id(before, id)),
{
    let after = before.remove(at);
    if has_id(after, id) {
        let i = choose|i: int| 0 <= i < after.len() && (#[trigger] after[i]).id == id;
        assert(before[if i < at { i } else { i + 1 }] == after[i]);
    }
    if before[at].id != id && has_id(before, id) {
        let i = choose|i: int| 0 <= i < before.len() && (#[trigger] before[i]).id == id;
        assert(after[if i < at { i } else { i - 1 }] == before[i]);
    }
}

/// Keeping some entries keeps exactly those, in order: an entry is found
/// afterwards where one of the kept has its number.
pub proof fn law_kept_entries_are_found<T>(entries: Seq<WithId<T>>, flags: Seq<bool>, id: u32)
    requires
        flags.len() == entries.len(),
    ensures
        has_id(flagged(entries, flags), id) <==> exists|i: int|
            0 <= i < entries.len() && flags[i] && (#[trigger] entries[i]).id == id,
        (forall|i: int| 0 <= i < flags.len() ==> #[trigger] flags[i]) ==> flagged(entries, flags)
            == entries,
        (forall|i: int| 0 <= i < flags.len() ==> !#[trigger] flags[i]) ==> flagged(
            entries,
            flags,
        ).len() == 0,
    decreases entries.len(),
{
    if entries.len() > 0 {
        let n = entries.len() - 1;
        let front = entries.drop_last();
        let before = flags.drop_last();
        law_kept_entries_are_found(front, before, id);
        let kept = flagged(front, before);
        let all = flagged(entries, flags);
        if has_id(all, id) {
            let i = choose|i: int| 0 <= i < all.len() && (#[trigger] all[i]).id == id;
            if i < kept.len() {
                assert(kept[i].id == id);
                let j = choose|j: int|
                    0 <= j < front.len() && before[j] && (#[trigger] front[j]).id == id;
                assert(flags[j] && entries[j].id == id);
            } else {
                assert(flags[n] && entries[n].id == id);
            }
        }
        if exists|i: int| 0 <= i < entries.len() && flags[i] && (#[trigger] entries[i]).id == id {
            let i = choose|i: int|
                0 <= i < entries.len() && flags[i] && (#[trigger] entries[i]).id == id;
            if i < n {
                assert(before[i] && front[i].id == id);
                let j = choose|j: int| 0 <= j < kept.len() && (#[trigger] kept[j]).id == id;
                assert(all[j] == kept[j]);
            } else {
                assert(all[kept.len() as int].id == id);
            }
        }
        if forall|i: int| 0 <= i < flags.len() ==> #[trigger] flags[i] {
            assert forall|i: int| 0 <= i < before.len() implies #[trigger] before[i] by {
                assert(flags[i]);
            }
            assert(flags[n]);
            assert(front.push(entries.last()) =~= entries);
        }
        if forall|i: int| 0 <= i < flags.len() ==> !#[trigger] flags[i] {
            assert forall|i: int| 0 <= i < before.len() implies !#[trigger] before[i] by {
                assert(!flags[i]);
            }
            assert(!flags[n]);
        }
    }
}

/// Entries stand in the order of their numbers: what stands behind an entry
/// has no smaller number.
pub proof fn law_entries_are_in_order<T>(entries: Seq<WithId<T>>, numbers: Seq<u32>, i: int, j: int)
    ensures
        is_sorted(entries) && 0 <= i < entries.len() && 0 <= j < entries.len() && entries[i].id
            < entries[j].id ==> i < j,
        in_order(numbers) && 0 <= i < numbers.len() && 0 <= j < numbers.len() && numbers[i]
            < numbers[j] ==> i < j,
{
    if is_sorted(entries) && 0 <= j <= i < entries.len() {
        assert(entries[j].id <= entries[i].id);
    }
    if in_order(numbers) && 0 <= j <= i < numbers.len() {
        assert(numbers[j] <= numbers[i]);
    }
}

} // verus!
