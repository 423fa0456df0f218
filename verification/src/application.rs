//! The style of the application.

use vstd::prelude::*;

use crate::text::{
    contains_text, law_each_occurrence_is_replaced, law_other_text_is_not_replaced, occurs_at,
    replace_all, replaced,
};

verus! {

/// The application id.
pub const APPLICATION_ID: &'static str = "com.tomiyou.ivyTerm";

/// The style sheet with the colors that stand for the split handles, the
/// background and the Tmux window replaced by the configured ones.
pub open spec fn styled(
    base: Seq<char>,
    split_handle: Seq<char>,
    background: Seq<char>,
    tmux_window: Seq<char>,
) -> Seq<char> {
    replaced(
        replaced(replaced(base, "#f0f0f0"@, split_handle), "#000000"@, background),
        "#420a42"@,
        tmux_window,
    )
}

/// The style sheet in the configured colors.
pub fn parse_css(base: &str, split_handle: &str, background: &str, tmux_window: &str) -> (css:
    String)
    ensures
        css@ == styled(base@, split_handle@, background@, tmux_window@),
{
    proof {
        reveal_strlit("#f0f0f0");
        reveal_strlit("#000000");
        reveal_strlit("#420a42");
    }
    let css = replace_all(base, "#f0f0f0", split_handle);
    let css = replace_all(css.as_str(), "#000000", background);
    replace_all(css.as_str(), "#420a42", tmux_window)
}

proof fn lemma_no_mark(s: Seq<char>, pattern: Seq<char>)
    requires
        pattern.len() > 0,
        pattern[0] == '#',
        !s.contains('#'),
    ensures
        !contains_text(s, pattern),
{
    if contains_text(s, pattern) {
        let i = choose|i: int| #[trigger] occurs_at(s, pattern, i);
        assert(s.subrange(i, i + pattern.len())[0] == '#');
        assert(s[i] == '#');
    }
}

/// A color between texts without one is replaced where it stands.
proof fn lemma_color_replaced(
    a: Seq<char>,
    color: Seq<char>,
    b: Seq<char>,
    with: Seq<char>,
)
    requires
        color.len() > 0,
        color[0] == '#',
        !a.contains('#'),
        !b.contains('#'),
    ensures
        replaced(a + color + b, color, with) == a + with + b,
{
    let s = a + color + b;
    let at = a.len() as int;
    assert(s.subrange(at, at + color.len()) =~= color);
    assert(occurs_at(s, color, at));
    assert forall|i: int| 0 <= i < at implies !#[trigger] occurs_at(s, color, i) by {
        if occurs_at(s, color, i) {
            assert(s.subrange(i, i + color.len())[0] == '#');
            assert(a[i] == '#');
        }
    }
    law_each_occurrence_is_replaced(s, at, color, with);
    assert(s.take(at) =~= a);
    assert(s.skip(at + color.len()) =~= b);
    lemma_no_mark(b, color);
    law_other_text_is_not_replaced(b, color, with);
}

/// Another color than the one that stands between the texts is not found there.
proof fn lemma_other_color(a: Seq<char>, color: Seq<char>, b: Seq<char>, other: Seq<char>)
    requires
        color.len() == 7,
        other.len() == 7,
        color[0] == '#',
        other[0] == '#',
        !color.skip(1).contains('#'),
        color[1] != other[1],
        !a.contains('#'),
        !b.contains('#'),
    ensures
        !contains_text(a + color + b, other),
{
    let s = a + color + b;
    if contains_text(s, other) {
        let i = choose|i: int| #[trigger] occurs_at(s, other, i);
        let found = s.subrange(i, i + 7);
        assert(found[0] == '#' && found[1] == other[1]);
        assert(s[i] == '#');
        if i < a.len() {
            assert(a[i] == '#');
        } else if i == a.len() {
            assert(s[i + 1] == color[1]);
        } else if i < a.len() + 7 {
            assert(color.skip(1)[i - a.len() - 1] == '#');
        } else {
            assert(b[i - a.len() - 7] == '#');
        }
    }
}

/// Each of the three colors that stand for configured ones becomes the color
/// that it stands for, and everything around it stays: the split handles, the
/// background and the Tmux window.
pub proof fn law_styles_take_the_configured_colors(
    a: Seq<char>,
    b: Seq<char>,
    split_handle: Seq<char>,
    background: Seq<char>,
    tmux_window: Seq<char>,
)
    requires
        !a.contains('#'),
        !b.contains('#'),
    ensures
        styled(a, split_handle, background, tmux_window) == a,
        styled(a + "#420a42"@ + b, split_handle, background, tmux_window) == a + tmux_window + b,
        !contains_text(a + background + b, "#420a42"@) ==> styled(
            a + "#000000"@ + b,
            split_handle,
            background,
            tmux_window,
        ) == a + background + b,
        !contains_text(a + split_handle + b, "#000000"@) && !contains_text(
            a + split_handle + b,
            "#420a42"@,
        ) ==> styled(a + "#f0f0f0"@ + b, split_handle, background, tmux_window) == a + split_handle
            + b,
{
    reveal_strlit("#f0f0f0");
    reveal_strlit("#000000");
    reveal_strlit("#420a42");
    let f = "#f0f0f0"@;
    let z = "#000000"@;
    let t = "#420a42"@;
    assert forall|c: char| f.skip(1).contains(c) implies c != '#' by {}
    assert forall|c: char| z.skip(1).contains(c) implies c != '#' by {}
    assert forall|c: char| t.skip(1).contains(c) implies c != '#' by {}
    lemma_no_mark(a, f);
    lemma_no_mark(a, z);
    lemma_no_mark(a, t);
    law_other_text_is_not_replaced(a, f, split_handle);
    law_other_text_is_not_replaced(a, z, background);
    law_other_text_is_not_replaced(a, t, tmux_window);
    // The Tmux window
    lemma_other_color(a, t, b, f);
    lemma_other_color(a, t, b, z);
    law_other_text_is_not_replaced(a + t + b, f, split_handle);
    law_other_text_is_not_replaced(a + t + b, z, background);
    lemma_color_replaced(a, t, b, tmux_window);
    // The background
    lemma_other_color(a, z, b, f);
    law_other_text_is_not_replaced(a + z + b, f, split_handle);
    lemma_color_replaced(a, z, b, background);
    if !contains_text(a + background + b, t) {
        law_other_text_is_not_replaced(a + background + b, t, tmux_window);
    }
    // The split handles
    lemma_color_replaced(a, f, b, split_handle);
    if !contains_text(a + split_handle + b, z) && !contains_text(a + split_handle + b, t) {
        law_other_text_is_not_replaced(a + split_handle + b, z, background);
        law_other_text_is_not_replaced(a + split_handle + b, t, tmux_window);
    }
}

} // verus!
