//! What the windows with normal terminals decide.

use vstd::prelude::*;

use crate::helpers::{flagged, in_order, is_sorted, SortedVec, WithId};
use crate::tmux_widgets::window::{holds, ids, lemma_flagged_panes, lemma_ids, panes_without};

verus! {

// ---------------------------------------------------------------------------
// The shell
// ---------------------------------------------------------------------------

/// The command that runs in a terminal: the user's shell, or bash.
pub fn shell_command(shell: Option<String>) -> (argv: Vec<String>)
    ensures
        argv@.len() == 1,
        argv@[0]@ == (match shell {
            Some(shell) => shell@,
            None => "/bin/bash"@,
        }),
{
    let mut argv: Vec<String> = Vec::new();
    match shell {
        Some(shell) => argv.push(shell),
        None => argv.push("/bin/bash".to_string()),
    }
    argv
}

/// The environment of the shell, as `key=value`.
pub fn environment(vars: &Vec<(String, String)>) -> (envv: Vec<String>)
    ensures
        envv@.len() == vars@.len(),
        forall|i: int|
            0 <= i < vars@.len() ==> (#[trigger] envv@[i])@ == vars@[i].0@ + "="@ + vars@[i].1@,
{
    let mut envv: Vec<String> = Vec::new();
    let mut i: usize = 0;
    while i < vars.len()
        invariant
            i <= vars@.len(),
            envv@.len() == i,
            forall|j: int|
                0 <= j < i ==> (#[trigger] envv@[j])@ == vars@[j].0@ + "="@ + vars@[j].1@,
        decreases vars@.len() - i,
    {
        let mut entry = vars[i].0.clone();
        entry.append("=");
        entry.append(vars[i].1.as_str());
        envv.push(entry);
        i += 1;
    }
    envv
}

/// The title that a tab takes over from one of its terminals: that of the
/// focused one, where it has one.
pub fn tab_title(has_focus: bool, title: Option<String>) -> (r: Option<String>)
    ensures
        r == (if has_focus {
            title
        } else {
            None
        }),
{
    if has_focus {
        title
    } else {
        None
    }
}

// ---------------------------------------------------------------------------
// The window
// ---------------------------------------------------------------------------

/// Whether a window closes: once all its pages (tabs) have been closed.
pub fn closes_without_pages(n_pages: i32) -> (r: bool)
    ensures
        r == (n_pages < 1),
{
    n_pages < 1
}

/// Whether the widget of a closing page has to be taken out of it by hand:
/// libadwaita does so itself from 1.6 on.
pub fn unparents_closing_page(major_version: u32, minor_version: u32) -> (r: bool)
    ensures
        r == (major_version < 2 && minor_version < 6),
{
    major_version < 2 && minor_version < 6
}

/// State of a window with normal terminals.
#[derive(Debug)]
pub struct IvyNormalWindow {
    next_tab_id: u32,
    next_terminal_id: u32,
    /// The numbers of the tabs, in the order in which they were opened
    tabs: Vec<u32>,
    terminals: SortedVec<u32>,
}

/// Mathematical value of an `IvyNormalWindow`.
#[verifier::ext_equal]
pub struct NormalView {
    pub next_tab_id: u32,
    pub next_terminal_id: u32,
    pub tabs: Seq<u32>,
    pub terminals: Seq<u32>,
}

impl View for IvyNormalWindow {
    type V = NormalView;

    closed spec fn view(&self) -> NormalView {
        NormalView {
            next_tab_id: self.next_tab_id,
            next_terminal_id: self.next_terminal_id,
            tabs: self.tabs@,
            terminals: ids(self.terminals@),
        }
    }
}

/// The number behind `id`; the last one is followed by 0.
pub open spec fn next_id(id: u32) -> u32 {
    if id == u32::MAX {
        0
    } else {
        (id + 1) as u32
    }
}

impl IvyNormalWindow {
    /// Whether the terminals are in the order of their numbers.
    pub closed spec fn wf(&self) -> bool {
        is_sorted(self.terminals@)
    }

    pub fn new() -> (window: IvyNormalWindow)
        ensures
            window.wf(),
            window@ == (NormalView {
                next_tab_id: 0,
                next_terminal_id: 0,
                tabs: Seq::empty(),
                terminals: Seq::empty(),
            }),
    {
        let window = IvyNormalWindow {
            next_tab_id: 0,
            next_terminal_id: 0,
            tabs: Vec::new(),
            terminals: SortedVec::default(),
        };
        assert(window@.terminals =~= Seq::empty());
        window
    }

    /// A number for a new tab.
    pub fn unique_tab_id(&mut self) -> (id: u32)
        requires
            old(self).wf(),
        ensures
            final(self).wf(),
            id == old(self)@.next_tab_id,
            final(self)@ == (NormalView { next_tab_id: next_id(id), ..old(self)@ }),
    {
        let id: u32 = self.next_tab_id;
        self.next_tab_id = id.wrapping_add(1);
        id
    }

    /// A number for a new terminal.
    pub fn unique_terminal_id(&mut self) -> (id: u32)
        requires
            old(self).wf(),
        ensures
            final(self).wf(),
            id == old(self)@.next_terminal_id,
            final(self)@ == (NormalView { next_terminal_id: next_id(id), ..old(self)@ }),
    {
        let id: u32 = self.next_terminal_id;
        self.next_terminal_id = id.wrapping_add(1);
        id
    }

    /// Opens a tab and returns its number.
    pub fn new_tab(&mut self) -> (id: u32)
        requires
            old(self).wf(),
        ensures
            final(self).wf(),
            id == old(self)@.next_tab_id,
            final(self)@ == (NormalView {
                next_tab_id: next_id(id),
                tabs: old(self)@.tabs.push(id),
                ..old(self)@
            }),
    {
        let id: u32 = self.unique_tab_id();
        self.tabs.push(id);
        id
    }

    /// The number of a terminal: the given one, or a new one.
    pub fn terminal_id(&mut self, pane_id: Option<u32>) -> (id: u32)
        requires
            old(self).wf(),
        ensures
            final(self).wf(),
            pane_id is Some ==> id == pane_id->Some_0 && final(self)@ == old(self)@,
            pane_id is None ==> id == old(self)@.next_terminal_id && final(self)@ == (NormalView {
                next_terminal_id: next_id(id),
                ..old(self)@
            }),
    {
        match pane_id {
            Some(id) => id,
            None => self.unique_terminal_id(),
        }
    }

    pub fn register_terminal(&mut self, pane_id: u32)
        requires
            old(self).wf(),
        ensures
            final(self).wf(),
            exists|at: int|
                0 <= at <= old(self)@.terminals.len() && final(self)@ == (NormalView {
                    terminals: #[trigger] old(self)@.terminals.insert(at, pane_id),
                    ..old(self)@
                }),
            in_order(final(self)@.terminals),
    {
        let at: usize = self.terminals.insert(pane_id, &pane_id);
        assert(self@.terminals =~= old(self)@.terminals.insert(at as int, pane_id));
    }

    pub fn unregister_terminal(&mut self, pane_id: u32)
        requires
            old(self).wf(),
        ensures
            final(self).wf(),
            !old(self)@.terminals.contains(pane_id) ==> final(self)@ == old(self)@,
            old(self)@.terminals.contains(pane_id) ==> exists|at: int|
                0 <= at < old(self)@.terminals.len() && old(self)@.terminals[at] == pane_id
                    && final(self)@ == (NormalView {
                    terminals: #[trigger] old(self)@.terminals.remove(at),
                    ..old(self)@
                }),
    {
        proof {
            lemma_ids(self.terminals@, pane_id);
        }
        let ghost before = self.terminals@;
        let removed = self.terminals.remove(pane_id);
        proof {
            if removed is Some {
                let at = choose|i: int|
                    0 <= i < before.len() && (#[trigger] before[i]).id == pane_id
                        && self.terminals@ == before.remove(i);
                assert(self@.terminals =~= old(self)@.terminals.remove(at));
            }
        }
    }

    /// The page of a tab is closing: the terminals that it owns and the tab
    /// are forgotten.
    pub fn tab_page_closed(&mut self, tab_id: u32, owned: &Vec<u32>)
        requires
            old(self).wf(),
        ensures
            final(self).wf(),
            final(self)@ == (NormalView {
                tabs: panes_without(old(self)@.tabs, seq![tab_id]),
                terminals: panes_without(old(self)@.terminals, owned@),
                ..old(self)@
            }),
    {
        let keep = |entry: &WithId<u32>| -> (keep: bool)
            ensures
                keep == !owned@.contains(entry.id),
            { !holds(owned, entry.id) };
        let ghost entries = self.terminals@;
        self.terminals.retain(keep);
        proof {
            let flags = choose|flags: Seq<bool>|
                flags.len() == entries.len() && #[trigger] flagged(entries, flags)
                    == self.terminals@ && forall|i: int|
                    0 <= i < flags.len() ==> keep.ensures((&entries[i],), #[trigger] flags[i]);
            assert forall|i: int| 0 <= i < flags.len() implies #[trigger] flags[i]
                == !owned@.contains(entries[i].id) by {
                assert(keep.ensures((&entries[i],), flags[i]));
            }
            lemma_flagged_panes(entries, flags, owned@);
        }
        let ghost all = self.tabs@;
        let mut kept: Vec<u32> = Vec::new();
        let mut i: usize = 0;
        assert(all.take(0) =~= Seq::empty());
        while i < self.tabs.len()
            invariant
                self.wf(),
                all == self.tabs@,
                i <= all.len(),
                kept@ == panes_without(all.take(i as int), seq![tab_id]),
            decreases all.len() - i,
        {
            proof {
                assert(all.take(i + 1).drop_last() =~= all.take(i as int));
                assert(seq![tab_id][0] == tab_id);
            }
            if self.tabs[i] != tab_id {
                kept.push(self.tabs[i]);
            }
            i += 1;
        }
        assert(all.take(all.len() as int) =~= all);
        self.tabs = kept;
    }
}

/// Two numbers that a window hands out one after the other differ.
pub proof fn law_successive_ids_differ(id: u32)
    ensures
        next_id(id) != id,
{
}

/// Numbers are handed out in order, starting again at 0 behind the last one.
pub proof fn law_ids_are_handed_out_in_order(id: u32)
    ensures
        id < u32::MAX ==> next_id(id) == id + 1,
        next_id(u32::MAX) == 0,
{
}

} // verus!
