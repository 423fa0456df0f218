//! Built-in terminal color schemes ("themes").

use vstd::prelude::*;
use vstd::seq_lib::{to_multiset_build, to_multiset_insert};

use crate::text::{chars_of, string_of};

verus! {

/// A color scheme with colors of type `C`.
#[derive(Debug)]
pub struct Theme<C> {
    pub foreground: C,
    pub background: C,
    pub cursor: Option<C>,
    pub cursor_foreground: Option<C>,
    pub selection: Option<C>,
    pub selection_foreground: Option<C>,
    pub normal: [C; 8],
    pub bright: [C; 8],
}

/// The texts of some strings.
pub open spec fn names_view(names: Seq<String>) -> Seq<Seq<char>> {
    Seq::new(names.len(), |i: int| names[i]@)
}

/// Position of the last dot of a name, or -1.
pub open spec fn last_dot(name: Seq<char>) -> int
    decreases name.len(),
{
    if name.len() == 0 {
        -1
    } else if name.last() == '.' {
        name.len() - 1
    } else {
        last_dot(name.drop_last())
    }
}

/// A file name without its extension: without the last dot and what follows
/// it, unless that is all of it.
pub open spec fn stem(name: Seq<char>) -> Option<Seq<char>> {
    if name.len() == 0 || name == seq!['.'] || name == seq!['.', '.'] {
        None
    } else if last_dot(name) <= 0 {
        Some(name)
    } else {
        Some(name.take(last_dot(name)))
    }
}

/// The stems of those names that have one, in order.
pub open spec fn stems(names: Seq<Seq<char>>) -> Seq<Seq<char>>
    decreases names.len(),
{
    if names.len() == 0 {
        Seq::empty()
    } else {
        match stem(names.last()) {
            Some(name) => stems(names.drop_last()).push(name),
            None => stems(names.drop_last()),
        }
    }
}

/// Alphabetical order, by code point.
pub open spec fn before(a: Seq<char>, b: Seq<char>) -> bool
    decreases a.len(),
{
    if a.len() == 0 {
        true
    } else if b.len() == 0 {
        false
    } else if a[0] != b[0] {
        a[0] < b[0]
    } else {
        before(a.skip(1), b.skip(1))
    }
}

/// Whether the names are in alphabetical order.
pub open spec fn alphabetical(names: Seq<Seq<char>>) -> bool {
    forall|i: int, j: int|
        0 <= i <= j < names.len() ==> before(#[trigger] names[i], #[trigger] names[j])
}

proof fn lemma_before_total(a: Seq<char>, b: Seq<char>)
    ensures
        before(a, b) || before(b, a),
        before(a, a),
    decreases a.len(),
{
    if a.len() > 0 {
        lemma_before_total(a.skip(1), if b.len() > 0 {
            b.skip(1)
        } else {
            b
        });
    }
}

proof fn lemma_before_transitive(a: Seq<char>, b: Seq<char>, c: Seq<char>)
    requires
        before(a, b),
        before(b, c),
    ensures
        before(a, c),
    decreases a.len(),
{
    if a.len() > 0 && a[0] == b[0] && b[0] == c[0] {
        lemma_before_transitive(a.skip(1), b.skip(1), c.skip(1));
    }
}

fn comes_before(a: &Vec<char>, b: &Vec<char>) -> (r: bool)
    ensures
        r == before(a@, b@),
{
    let mut i: usize = 0;
    assert(a@.skip(0) =~= a@);
    assert(b@.skip(0) =~= b@);
    while i < a.len() && i < b.len() && a[i] == b[i]
        invariant
            i <= a@.len(),
            i <= b@.len(),
            before(a@, b@) == before(a@.skip(i as int), b@.skip(i as int)),
        ensures
            i == a@.len() || i == b@.len() || a@[i as int] != b@[i as int],
        decreases a@.len() - i,
    {
        assert(a@.skip(i as int).skip(1) =~= a@.skip(i + 1));
        assert(b@.skip(i as int).skip(1) =~= b@.skip(i + 1));
        i += 1;
    }
    if i == a.len() {
        true
    } else if i == b.len() {
        false
    } else {
        a[i] < b[i]
    }
}

fn stem_of(name: &str) -> (r: Option<String>)
    ensures
        match r {
            Some(text) => stem(name@) == Some(text@),
            None => stem(name@) is None,
        },
{
    let chars = chars_of(name);
    if chars.len() == 0 {
        return None;
    }
    if chars.len() == 1 && chars[0] == '.' {
        assert(name@ =~= seq!['.']);
        return None;
    }
    if chars.len() == 2 && chars[0] == '.' && chars[1] == '.' {
        assert(name@ =~= seq!['.', '.']);
        return None;
    }
    assert(name@ != seq!['.'] && name@ != seq!['.', '.']) by {
        assert(seq!['.'][0] == '.');
        assert(seq!['.', '.'][0] == '.' && seq!['.', '.'][1] == '.');
    }
    let mut i: usize = chars.len();
    assert(name@.take(i as int) =~= name@);
    while i > 0 && chars[i - 1] != '.'
        invariant
            chars@ == name@,
            i <= chars@.len(),
            last_dot(name@) == last_dot(name@.take(i as int)),
        ensures
            i == 0 || name@[i - 1] == '.',
        decreases i,
    {
        assert(name@.take(i as int).drop_last() =~= name@.take(i - 1));
        i -= 1;
    }
    assert(i > 0 ==> name@.take(i as int).last() == '.');
    let n: usize = chars.len();
    if i <= 1 {
        assert(name@.subrange(0, n as int) =~= name@);
        Some(string_of(chars.as_slice(), 0, n))
    } else {
        assert(name@.subrange(0, i - 1) =~= name@.take(i - 1));
        Some(string_of(chars.as_slice(), 0, i - 1))
    }
}

/// Puts `name` where it belongs among `names`.
fn insert_sorted(names: &mut Vec<String>, name: String)
    requires
        alphabetical(names_view(old(names)@)),
    ensures
        alphabetical(names_view(final(names)@)),
        names_view(final(names)@).to_multiset() == names_view(old(names)@).to_multiset().insert(
            name@,
        ),
{
    let ghost all = names_view(names@);
    let ghost text = name@;
    let wanted = chars_of(name.as_str());
    let mut at: usize = names.len();
    while at > 0
        invariant
            all == names_view(names@),
            alphabetical(all),
            wanted@ == text,
            at <= names@.len(),
            forall|i: int| at <= i < all.len() ==> before(text, #[trigger] all[i]),
        ensures
            at == 0 || before(all[at - 1], text),
        decreases at,
    {
        let other = chars_of(names[at - 1].as_str());
        proof {
            assert(other@ == all[at - 1]);
            lemma_before_total(all[at - 1], text);
        }
        if comes_before(&other, &wanted) {
            break;
        }
        at -= 1;
    }
    names.insert(at, name);
    proof {
        let after = names_view(names@);
        assert(after =~= all.insert(at as int, text));
        assert forall|i: int, j: int| 0 <= i <= j < after.len() implies before(
            #[trigger] after[i],
            #[trigger] after[j],
        ) by {
            let a = if i < at {
                i
            } else {
                i - 1
            };
            let b = if j < at {
                j
            } else {
                j - 1
            };
            lemma_before_total(text, text);
            if i != at && j != at {
                assert(before(all[a], all[b]));
            } else if i != at {
                assert(before(all[a], all[at - 1]));
                lemma_before_transitive(all[a], all[at - 1], text);
            } else if j != at {
                assert(before(text, all[b]));
            }
        }
        to_multiset_insert(all, at as int, text);
    }
}

/// Names of all bundled themes, sorted alphabetically (as shown in the
/// settings UI), from the names of their files.
pub fn theme_names(files: &Vec<String>) -> (names: Vec<String>)
    requires
        forall|i: int| 0 <= i < files@.len() ==> !(#[trigger] files@[i])@.contains('/'),
    ensures
        alphabetical(names_view(names@)),
        names_view(names@).to_multiset() == stems(names_view(files@)).to_multiset(),
{
    let ghost all = names_view(files@);
    let mut names: Vec<String> = Vec::new();
    let mut i: usize = 0;
    assert(names_view(names@) =~= Seq::empty());
    assert(stems(all.take(0)) =~= Seq::empty());
    while i < files.len()
        invariant
            all == names_view(files@),
            i <= files@.len(),
            alphabetical(names_view(names@)),
            names_view(names@).to_multiset() == stems(all.take(i as int)).to_multiset(),
        decreases files@.len() - i,
    {
        proof {
            assert(all.take(i + 1).drop_last() =~= all.take(i as int));
            assert(all.take(i + 1).last() == files@[i as int]@);
        }
        if let Some(name) = stem_of(files[i].as_str()) {
            proof {
                to_multiset_build(stems(all.take(i as int)), name@);
            }
            insert_sorted(&mut names, name);
        }
        i += 1;
    }
    assert(all.take(all.len() as int) =~= all);
    names
}

/// The name of the file of a theme.
pub fn theme_file(name: &str) -> (file: String)
    ensures
        file@ == name@ + ".toml"@,
{
    let mut file = name.to_string();
    file.append(".toml");
    file
}

/// A theme is listed under the name that it is found by.
pub proof fn law_listed_names_find_their_file(name: Seq<char>)
    requires
        name.len() > 0,
    ensures
        stem(name + ".toml"@) == Some(name),
{
    reveal_strlit(".toml");
    let file = name + ".toml"@;
    assert(file.len() == name.len() + 5);
    assert(file.drop_last().drop_last().drop_last().drop_last() =~= name.push('.'));
    reveal_with_fuel(last_dot, 6);
    assert(file.last() == 'l');
    assert(file.drop_last().last() == 'm');
    assert(file.drop_last().drop_last().last() == 'o');
    assert(file.drop_last().drop_last().drop_last().last() == 't');
    assert(last_dot(file) == name.len());
    assert(file.take(name.len() as int) =~= name);
}

/// A name loses its last dot and what follows it: `a.b.c` is listed as `a.b`.
/// A name without a dot, or with one only at its start, is listed as it is.
pub proof fn law_names_lose_their_extension(name: Seq<char>, extension: Seq<char>)
    requires
        name.len() > 0,
        !extension.contains('.'),
        name != seq!['.'] || extension.len() > 0,
    ensures
        stem(name + seq!['.'] + extension) == Some(name),
        extension.len() > 0 ==> stem(extension) == Some(extension) && stem(seq!['.'] + extension)
            == Some(seq!['.'] + extension),
{
    let file = name + seq!['.'] + extension;
    lemma_last_dot(name, extension);
    assert(file.take(name.len() as int) =~= name);
    if file =~= seq!['.', '.'] {
        assert(file.len() == 2);
        assert(name.len() == 1 && extension.len() == 0);
        assert(name[0] == file[0]);
        assert(name =~= seq!['.']);
    }
    assert(file != seq!['.']) by {
        assert(file.len() > 1);
    }
    if extension.len() > 0 {
        lemma_no_dot(extension);
        let hidden = seq!['.'] + extension;
        assert(hidden =~= Seq::<char>::empty() + seq!['.'] + extension);
        lemma_last_dot(Seq::<char>::empty(), extension);
        assert(extension.contains(extension[0]));
        assert(seq!['.'][0] == '.' && seq!['.', '.'][0] == '.' && seq!['.', '.'][1] == '.');
        assert(hidden[1] == extension[0]);
    }
}

proof fn lemma_no_dot(s: Seq<char>)
    requires
        !s.contains('.'),
    ensures
        last_dot(s) == -1,
    decreases s.len(),
{
    if s.len() > 0 {
        assert(s.contains(s[s.len() - 1]));
        if s.drop_last().contains('.') {
            let i = choose|i: int| 0 <= i < s.drop_last().len() && s.drop_last()[i] == '.';
            assert(s[i] == '.');
        }
        lemma_no_dot(s.drop_last());
    }
}

proof fn lemma_last_dot(name: Seq<char>, extension: Seq<char>)
    requires
        !extension.contains('.'),
    ensures
        last_dot(name + seq!['.'] + extension) == name.len(),
    decreases extension.len(),
{
    let file = name + seq!['.'] + extension;
    if extension.len() == 0 {
        assert(file.last() == '.');
    } else {
        let shorter = extension.drop_last();
        assert(extension.contains(extension[extension.len() - 1]));
        assert(file.last() == extension.last());
        assert(file.drop_last() =~= name + seq!['.'] + shorter);
        if shorter.contains('.') {
            let i = choose|i: int| 0 <= i < shorter.len() && shorter[i] == '.';
            assert(extension[i] == '.');
        }
        lemma_last_dot(name, shorter);
    }
}

/// The first character in which two names differ decides which one comes
/// first; a name comes before any longer one that starts with it.
pub proof fn law_names_are_ordered_by_character(
    common: Seq<char>,
    a: char,
    b: char,
    x: Seq<char>,
    y: Seq<char>,
)
    requires
        a < b,
    ensures
        before(common + seq![a] + x, common + seq![b] + y),
        !before(common + seq![b] + y, common + seq![a] + x),
        before(common, common + y),
        !before(common + seq![a] + x, common),
    decreases common.len(),
{
    let s = common + seq![a] + x;
    let t = common + seq![b] + y;
    if common.len() > 0 {
        let rest = common.skip(1);
        law_names_are_ordered_by_character(rest, a, b, x, y);
        assert(s.skip(1) =~= rest + seq![a] + x);
        assert(t.skip(1) =~= rest + seq![b] + y);
        assert((common + y).skip(1) =~= rest + y);
    } else {
        assert(s[0] == a && t[0] == b);
    }
}

/// Every file with a stem is listed, in the order of the files, and nothing
/// else is.
pub proof fn law_every_theme_is_listed(files: Seq<Seq<char>>, file: Seq<char>)
    ensures
        stem(file) is Some ==> stems(files.push(file)) == stems(files).push(stem(file)->Some_0),
        stem(file) is None ==> stems(files.push(file)) == stems(files),
        stems(Seq::empty()) == Seq::<Seq<char>>::empty(),
        stem(file) is None <==> file.len() == 0 || file == seq!['.'] || file == seq!['.', '.'],
{
    assert(files.push(file).drop_last() =~= files);
}

/// Of two names in the list, the one with the smaller character where they
/// first differ stands in front.
pub proof fn law_names_are_listed_alphabetically(
    names: Seq<Seq<char>>,
    i: int,
    j: int,
    common: Seq<char>,
    a: char,
    b: char,
    x: Seq<char>,
    y: Seq<char>,
)
    requires
        alphabetical(names),
        0 <= i < names.len(),
        0 <= j < names.len(),
        a < b,
        names[i] == common + seq![a] + x,
        names[j] == common + seq![b] + y,
    ensures
        i < j,
{
    law_names_are_ordered_by_character(common, a, b, x, y);
    if j <= i {
        assert(before(names[j], names[i]));
    }
}

} // verus!
