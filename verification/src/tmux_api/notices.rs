//! What the lines of the control-mode protocol mean, stated of the lines as
//! Tmux writes them.

use vstd::prelude::*;
use vstd::utf8::{
    encode_utf8, encode_utf8_decode_utf8, encode_utf8_valid_utf8, is_ascii_chars,
    is_ascii_chars_encode_utf8, valid_utf8,
};

use super::parse_layout::layout_of;
use super::receive::{
    digit_run, digits_value, ended_lines, escapes_ok, is_digit, joined,
    law_plain_bytes_stand_for_themselves, line_run, notification, number_field, numbered_text,
    reply, reply_line, reply_lines, starts_with, unescaped, utf8_lossy, LineRun, Outcome,
};
use super::{EffectView, EventView, LayoutView, ParserView, TmuxCommand};
use crate::helpers::TmuxError;
use crate::text::{decimal, lemma_encode_concat, occurs_at};

verus! {

// ---------------------------------------------------------------------------
// Reading what was written
// ---------------------------------------------------------------------------

/// A number as Tmux writes it.
pub open spec fn written(n: u32) -> Seq<u8> {
    encode_utf8(decimal(n as nat))
}

/// A number in base ten is read back from its digits.
pub proof fn lemma_decimal_written(n: nat)
    ensures
        is_ascii_chars(decimal(n)),
        encode_utf8(decimal(n)).len() > 0,
        digits_value(encode_utf8(decimal(n))) == n,
        forall|i: int|
            0 <= i < encode_utf8(decimal(n)).len() ==> is_digit(
                #[trigger] encode_utf8(decimal(n))[i],
            ),
    decreases n,
{
    reveal_with_fuel(digits_value, 2);
    let d = (48 + n % 10) as char;
    assert(d as int == 48 + n % 10);
    assert(is_ascii_chars(seq![d]));
    is_ascii_chars_encode_utf8(seq![d]);
    let low = encode_utf8(seq![d]);
    assert(low =~= seq![d as u8]);
    if n < 10 {
        assert(decimal(n) =~= seq![d]);
        assert(low.drop_last() =~= Seq::empty());
    } else {
        lemma_decimal_written(n / 10);
        assert(decimal(n) =~= decimal(n / 10) + seq![d]);
        lemma_encode_concat(decimal(n / 10), seq![d]);
        let all = encode_utf8(decimal(n));
        assert(all.drop_last() =~= encode_utf8(decimal(n / 10)));
        assert forall|i: int| 0 <= i < all.len() implies is_digit(#[trigger] all[i]) by {
            if i < all.len() - 1 {
                assert(all[i] == encode_utf8(decimal(n / 10))[i]);
            }
        }
    }
}

proof fn lemma_run_of_digits(digits: Seq<u8>, rest: Seq<u8>)
    requires
        forall|i: int| 0 <= i < digits.len() ==> is_digit(#[trigger] digits[i]),
        rest.len() == 0 || !is_digit(rest[0]),
    ensures
        digit_run(digits + rest) == digits.len(),
    decreases digits.len(),
{
    let s = digits + rest;
    if digits.len() > 0 {
        assert(is_digit(digits[0]));
        assert(s.skip(1) =~= digits.skip(1) + rest);
        assert forall|i: int| 0 <= i < digits.skip(1).len() implies is_digit(
            #[trigger] digits.skip(1)[i],
        ) by {
            assert(is_digit(digits[i + 1]));
        }
        lemma_run_of_digits(digits.skip(1), rest);
    } else {
        assert(s =~= rest);
    }
}

/// A number that stands behind `front` is read there.
proof fn lemma_number_field(front: Seq<u8>, n: u32, rest: Seq<u8>)
    requires
        rest.len() == 0 || !is_digit(rest[0]),
    ensures
        number_field(front + written(n) + rest, front.len() as int) == Some(
            (n, (front.len() + written(n).len() + 1) as int),
        ),
        written(n).len() > 0,
        written(n).last() != 13,
{
    let digits = written(n);
    let s = front + digits + rest;
    lemma_decimal_written(n as nat);
    lemma_run_of_digits(digits, rest);
    assert(s.skip(front.len() as int) =~= digits + rest);
    assert((digits + rest).take(digits.len() as int) =~= digits);
    assert(is_digit(digits[digits.len() - 1]));
}

proof fn lemma_letter(line: Seq<u8>, prefix: Seq<char>, i: int)
    requires
        is_ascii_chars(prefix),
        0 <= i < prefix.len(),
    ensures
        starts_with(line, prefix) ==> line.len() >= prefix.len() && line[i] == prefix[i] as u8,
{
    is_ascii_chars_encode_utf8(prefix);
    if starts_with(line, prefix) {
        assert(line.subrange(0, encode_utf8(prefix).len() as int)[i] == encode_utf8(prefix)[i]);
    }
}

/// The letters that tell the kinds of lines apart.
proof fn lemma_kinds(line: Seq<u8>)
    ensures
        starts_with(line, "%begin"@) ==> line[1] == 98,
        starts_with(line, "%end"@) ==> line[1] == 101 && line[2] == 110,
        starts_with(line, "%error"@) ==> line[1] == 101 && line[2] == 114,
        starts_with(line, "%output"@) ==> line[1] == 111,
        starts_with(line, "%window-pane-changed"@) ==> line[1] == 119 && line[8] == 112,
        starts_with(line, "%window-add"@) ==> line[1] == 119 && line[8] == 97,
        starts_with(line, "%session-window-changed"@) ==> line[1] == 115 && line[9] == 119,
        starts_with(line, "%unlinked-window-close"@) ==> line[1] == 117,
        starts_with(line, "%window-close"@) ==> line[1] == 119 && line[8] == 99,
        starts_with(line, "%layout-change"@) ==> line[1] == 108,
        starts_with(line, "%paste-buffer-changed"@) ==> line[1] == 112,
        starts_with(line, "%session-changed"@) ==> line[1] == 115 && line[9] == 99,
        starts_with(line, "%window-renamed"@) ==> line[1] == 119 && line[8] == 114,
        starts_with(line, "%exit"@) ==> line[1] == 101 && line[2] == 120,
        starts_with(line, "%client-session-changed"@) ==> line[1] == 99,
{
    reveal_strlit("%begin");
    reveal_strlit("%end");
    reveal_strlit("%error");
    reveal_strlit("%output");
    reveal_strlit("%window-pane-changed");
    reveal_strlit("%window-add");
    reveal_strlit("%session-window-changed");
    reveal_strlit("%unlinked-window-close");
    reveal_strlit("%window-close");
    reveal_strlit("%layout-change");
    reveal_strlit("%paste-buffer-changed");
    reveal_strlit("%session-changed");
    reveal_strlit("%window-renamed");
    reveal_strlit("%exit");
    reveal_strlit("%client-session-changed");
    lemma_letter(line, "%begin"@, 1);
    lemma_letter(line, "%end"@, 1);
    lemma_letter(line, "%end"@, 2);
    lemma_letter(line, "%error"@, 1);
    lemma_letter(line, "%error"@, 2);
    lemma_letter(line, "%output"@, 1);
    lemma_letter(line, "%window-pane-changed"@, 1);
    lemma_letter(line, "%window-pane-changed"@, 8);
    lemma_letter(line, "%window-add"@, 1);
    lemma_letter(line, "%window-add"@, 8);
    lemma_letter(line, "%session-window-changed"@, 1);
    lemma_letter(line, "%session-window-changed"@, 9);
    lemma_letter(line, "%unlinked-window-close"@, 1);
    lemma_letter(line, "%window-close"@, 1);
    lemma_letter(line, "%window-close"@, 8);
    lemma_letter(line, "%layout-change"@, 1);
    lemma_letter(line, "%paste-buffer-changed"@, 1);
    lemma_letter(line, "%session-changed"@, 1);
    lemma_letter(line, "%session-changed"@, 9);
    lemma_letter(line, "%window-renamed"@, 1);
    lemma_letter(line, "%window-renamed"@, 8);
    lemma_letter(line, "%exit"@, 1);
    lemma_letter(line, "%exit"@, 2);
    lemma_letter(line, "%client-session-changed"@, 1);
}

/// A line starts with `prefix` where it starts with a text that does.
proof fn lemma_starts(front: Seq<char>, prefix: Seq<char>, more: Seq<char>, rest: Seq<u8>)
    requires
        front == prefix + more,
        is_ascii_chars(front),
    ensures
        starts_with(encode_utf8(front) + rest, prefix),
        encode_utf8(front).len() == front.len(),
{
    is_ascii_chars_encode_utf8(front);
    lemma_encode_concat(prefix, more);
    assert((encode_utf8(front) + rest).subrange(0, encode_utf8(prefix).len() as int)
        =~= encode_utf8(prefix));
}

/// A line that is a notification, and nothing else, brings what the
/// notification brings.
proof fn lemma_notice(state: ParserView, line: Seq<u8>)
    requires
        state.preamble_done,
        line.len() > 0,
        line[0] == 37,
        line.last() != 13,
        !starts_with(line, "%begin"@),
        !starts_with(line, "%end"@),
        !starts_with(line, "%error"@),
    ensures
        line_run(state, line) == (match notification(line) {
            None => None,
            Some(outcome) => Some(LineRun { state, outcome }),
        }),
{
    reveal(line_run);
}

/// Whether a line brings exactly one event, and changes nothing else.
pub open spec fn reports(state: ParserView, line: Seq<u8>, event: EventView) -> bool {
    line_run(state, line) == Some(
        LineRun {
            state,
            outcome: Outcome { effects: seq![EffectView::Send(event)], error: None },
        },
    )
}

// ---------------------------------------------------------------------------
// Notifications
// ---------------------------------------------------------------------------

/// `%output %1 text` is output of the pane, as it is where it holds no
/// backslash, and with its escapes resolved otherwise.
#[verifier::rlimit(40)]
pub proof fn law_output_is_delivered(state: ParserView, pane_id: u32, text: Seq<u8>)
    requires
        state.preamble_done,
        escapes_ok(text),
        text.len() > 0 ==> text.last() != 13,
    ensures
        ({
            let line = encode_utf8("%output %"@) + written(pane_id) + seq![32u8] + text;
            &&& reports(state, line, EventView::Output(pane_id, unescaped(text), false))
            &&& !text.contains(92) ==> reports(
                state,
                line,
                EventView::Output(pane_id, text, false),
            )
        }),
{
    reveal_strlit("%output %");
    reveal_strlit("%output");
    reveal_strlit(" %");
    let front = encode_utf8("%output %"@);
    let rest = seq![32u8] + text;
    let line = front + written(pane_id) + seq![32u8] + text;
    assert(line =~= front + written(pane_id) + rest);
    assert(line =~= front + (written(pane_id) + rest));
    assert("%output %"@ =~= "%output"@ + " %"@);
    lemma_starts("%output %"@, "%output"@, " %"@, written(pane_id) + rest);
    lemma_number_field(front, pane_id, rest);
    let at = front.len() + written(pane_id).len() + 1;
    assert(line.skip(at as int) =~= text);
    lemma_kinds(line);
    lemma_letter(line, "%output"@, 0);
    lemma_letter(line, "%output"@, 1);
    if text.len() > 0 {
        assert(line.last() == text.last());
    } else {
        assert(line.last() == 32);
    }
    lemma_notice(state, line);
    if !text.contains(92) {
        law_plain_bytes_stand_for_themselves(text);
    }
}

/// The last byte of some bytes and a text behind them.
proof fn lemma_last(front: Seq<u8>, text: Seq<char>)
    requires
        front.len() > 0,
        front.last() != 13,
        text.len() > 0 ==> encode_utf8(text).last() != 13,
    ensures
        (front + encode_utf8(text)).last() != 13,
        (front + encode_utf8(text)).len() > 0,
{
    if text.len() == 0 {
        assert(front + encode_utf8(text) =~= front);
    } else {
        assert(encode_utf8(text).len() > 0) by {
            reveal_with_fuel(encode_utf8, 2);
        }
    }
}

proof fn lemma_numbered_text(front: Seq<u8>, id: u32, name: Seq<char>)
    requires
        name.len() > 0 ==> encode_utf8(name).last() != 13,
    ensures
        ({
            let line = front + written(id) + seq![32u8] + encode_utf8(name);
            &&& numbered_text(line, front.len() as int) == Some(
                Ok::<(u32, Seq<char>), TmuxError>((id, name)),
            )
            &&& line.last() != 13
        }),
{
    let text = encode_utf8(name);
    let rest = seq![32u8] + text;
    let line = front + written(id) + seq![32u8] + text;
    assert(line =~= front + written(id) + rest);
    lemma_number_field(front, id, rest);
    assert(line.skip((front.len() + written(id).len() + 1) as int) =~= text);
    encode_utf8_valid_utf8(name);
    encode_utf8_decode_utf8(name);
    lemma_last(front + written(id) + seq![32u8], name);
}

/// `%window-pane-changed @0 %10`: the pane of the window has the focus.
#[verifier::rlimit(40)]
pub proof fn law_focused_panes_are_reported(state: ParserView, tab_id: u32, pane_id: u32)
    requires
        state.preamble_done,
    ensures
        reports(
            state,
            encode_utf8("%window-pane-changed @"@) + written(tab_id) + seq![32u8, 37u8] + written(
                pane_id,
            ),
            EventView::PaneFocusChanged(tab_id, pane_id),
        ),
{
    let rest = seq![32u8, 37u8] + written(pane_id);
    reveal_strlit("%window-pane-changed @");
    reveal_strlit("%window-pane-changed");
    reveal_strlit(" @");
    let front = encode_utf8("%window-pane-changed @"@);
    assert("%window-pane-changed @"@ =~= "%window-pane-changed"@ + " @"@);
    lemma_starts("%window-pane-changed @"@, "%window-pane-changed"@, " @"@, written(tab_id) + rest);
    let line = front + written(tab_id) + seq![32u8, 37u8] + written(pane_id);
    assert(line =~= front + written(tab_id) + rest);
    assert(line =~= front + (written(tab_id) + rest));
    lemma_number_field(front, tab_id, rest);
    let second = front + written(tab_id) + seq![32u8, 37u8];
    assert(line =~= second + written(pane_id) + Seq::<u8>::empty());
    lemma_number_field(second, pane_id, Seq::<u8>::empty());
    lemma_kinds(line);
    lemma_letter(line, "%window-pane-changed"@, 0);
    lemma_letter(line, "%window-pane-changed"@, 1);
    lemma_letter(line, "%window-pane-changed"@, 8);
    assert(line.last() == written(pane_id).last());
    lemma_notice(state, line);
}

/// `%session-window-changed $1 @1`: the window of the session has the focus.
#[verifier::rlimit(40)]
pub proof fn law_focused_tabs_are_reported(state: ParserView, session_id: u32, tab_id: u32)
    requires
        state.preamble_done,
    ensures
        reports(
            state,
            encode_utf8("%session-window-changed $"@) + written(session_id) + seq![32u8, 64u8]
                + written(tab_id),
            EventView::TabFocusChanged(tab_id),
        ),
{
    let rest = seq![32u8, 64u8] + written(tab_id);
    reveal_strlit("%session-window-changed $");
    reveal_strlit("%session-window-changed");
    reveal_strlit(" $");
    let front = encode_utf8("%session-window-changed $"@);
    assert("%session-window-changed $"@ =~= "%session-window-changed"@ + " $"@);
    lemma_starts(
        "%session-window-changed $"@,
        "%session-window-changed"@,
        " $"@,
        written(session_id) + rest,
    );
    let line = front + written(session_id) + seq![32u8, 64u8] + written(tab_id);
    assert(line =~= front + written(session_id) + rest);
    assert(line =~= front + (written(session_id) + rest));
    lemma_number_field(front, session_id, rest);
    let second = front + written(session_id) + seq![32u8, 64u8];
    assert(line =~= second + written(tab_id) + Seq::<u8>::empty());
    lemma_number_field(second, tab_id, Seq::<u8>::empty());
    lemma_kinds(line);
    lemma_letter(line, "%session-window-changed"@, 0);
    lemma_letter(line, "%session-window-changed"@, 1);
    lemma_letter(line, "%session-window-changed"@, 9);
    assert(line.last() == written(tab_id).last());
    lemma_notice(state, line);
}

/// `%window-add @32`: the window was added.
#[verifier::rlimit(40)]
pub proof fn law_added_windows_are_reported(state: ParserView, tab_id: u32)
    requires
        state.preamble_done,
    ensures
        reports(
            state,
            encode_utf8("%window-add @"@) + written(tab_id),
            EventView::WindowAdded(tab_id),
        ),
{
    reveal_strlit("%window-add @");
    reveal_strlit("%window-add");
    reveal_strlit(" @");
    let front = encode_utf8("%window-add @"@);
    assert("%window-add @"@ =~= "%window-add"@ + " @"@);
    lemma_starts("%window-add @"@, "%window-add"@, " @"@, written(tab_id));
    let line = front + written(tab_id);
    assert(line =~= front + written(tab_id) + Seq::<u8>::empty());
    lemma_number_field(front, tab_id, Seq::<u8>::empty());
    lemma_kinds(line);
    lemma_letter(line, "%window-add"@, 0);
    lemma_letter(line, "%window-add"@, 1);
    lemma_letter(line, "%window-add"@, 8);
    assert(line.last() == written(tab_id).last());
    lemma_notice(state, line);
}

/// `%window-close @6`: the window was closed.
#[verifier::rlimit(40)]
pub proof fn law_closed_windows_are_reported(state: ParserView, tab_id: u32)
    requires
        state.preamble_done,
    ensures
        reports(
            state,
            encode_utf8("%window-close @"@) + written(tab_id),
            EventView::TabClosed(tab_id),
        ),
{
    reveal_strlit("%window-close @");
    reveal_strlit("%window-close");
    reveal_strlit(" @");
    let front = encode_utf8("%window-close @"@);
    assert("%window-close @"@ =~= "%window-close"@ + " @"@);
    lemma_starts("%window-close @"@, "%window-close"@, " @"@, written(tab_id));
    let line = front + written(tab_id);
    assert(line =~= front + written(tab_id) + Seq::<u8>::empty());
    lemma_number_field(front, tab_id, Seq::<u8>::empty());
    lemma_kinds(line);
    lemma_letter(line, "%window-close"@, 0);
    lemma_letter(line, "%window-close"@, 1);
    lemma_letter(line, "%window-close"@, 8);
    assert(line.last() == written(tab_id).last());
    lemma_notice(state, line);
}

/// `%unlinked-window-close @6`: the window was closed too.
#[verifier::rlimit(40)]
pub proof fn law_unlinked_windows_are_reported(state: ParserView, tab_id: u32)
    requires
        state.preamble_done,
    ensures
        reports(
            state,
            encode_utf8("%unlinked-window-close @"@) + written(tab_id),
            EventView::TabClosed(tab_id),
        ),
{
    reveal_strlit("%unlinked-window-close @");
    reveal_strlit("%unlinked-window-close");
    reveal_strlit(" @");
    let front = encode_utf8("%unlinked-window-close @"@);
    assert("%unlinked-window-close @"@ =~= "%unlinked-window-close"@ + " @"@);
    lemma_starts("%unlinked-window-close @"@, "%unlinked-window-close"@, " @"@, written(tab_id));
    let line = front + written(tab_id);
    assert(line =~= front + written(tab_id) + Seq::<u8>::empty());
    lemma_number_field(front, tab_id, Seq::<u8>::empty());
    lemma_kinds(line);
    lemma_letter(line, "%unlinked-window-close"@, 0);
    lemma_letter(line, "%unlinked-window-close"@, 1);
    assert(line.last() == written(tab_id).last());
    lemma_notice(state, line);
}

/// `%window-renamed @1 name`: the window has a new name, all of it.
#[verifier::rlimit(40)]
pub proof fn law_renamed_windows_are_reported(state: ParserView, tab_id: u32, name: Seq<char>)
    requires
        state.preamble_done,
        name.len() > 0 ==> encode_utf8(name).last() != 13,
    ensures
        reports(
            state,
            encode_utf8("%window-renamed @"@) + written(tab_id) + seq![32u8] + encode_utf8(name),
            EventView::TabRenamed(tab_id, name),
        ),
{
    let text = encode_utf8(name);
    let rest = seq![32u8] + text;
    reveal_strlit("%window-renamed @");
    reveal_strlit("%window-renamed");
    reveal_strlit(" @");
    let front = encode_utf8("%window-renamed @"@);
    assert("%window-renamed @"@ =~= "%window-renamed"@ + " @"@);
    lemma_starts("%window-renamed @"@, "%window-renamed"@, " @"@, written(tab_id) + rest);
    let line = front + written(tab_id) + seq![32u8] + text;
    assert(line =~= front + written(tab_id) + rest);
    assert(line =~= front + (written(tab_id) + rest));
    lemma_numbered_text(front, tab_id, name);
    lemma_kinds(line);
    lemma_letter(line, "%window-renamed"@, 0);
    lemma_letter(line, "%window-renamed"@, 1);
    lemma_letter(line, "%window-renamed"@, 8);
    lemma_notice(state, line);
}

/// `%session-changed $1 name`: the client is attached to the session.
#[verifier::rlimit(40)]
pub proof fn law_sessions_are_reported(state: ParserView, session_id: u32, name: Seq<char>)
    requires
        state.preamble_done,
        name.len() > 0 ==> encode_utf8(name).last() != 13,
    ensures
        reports(
            state,
            encode_utf8("%session-changed $"@) + written(session_id) + seq![32u8] + encode_utf8(
                name,
            ),
            EventView::SessionChanged(session_id, name),
        ),
{
    let text = encode_utf8(name);
    let rest = seq![32u8] + text;
    reveal_strlit("%session-changed $");
    reveal_strlit("%session-changed");
    reveal_strlit(" $");
    let front = encode_utf8("%session-changed $"@);
    assert("%session-changed $"@ =~= "%session-changed"@ + " $"@);
    lemma_starts("%session-changed $"@, "%session-changed"@, " $"@, written(session_id) + rest);
    let line = front + written(session_id) + seq![32u8] + text;
    assert(line =~= front + written(session_id) + rest);
    assert(line =~= front + (written(session_id) + rest));
    lemma_numbered_text(front, session_id, name);
    lemma_kinds(line);
    lemma_letter(line, "%session-changed"@, 0);
    lemma_letter(line, "%session-changed"@, 1);
    lemma_letter(line, "%session-changed"@, 9);
    lemma_notice(state, line);
}

/// `%paste-buffer-changed name`: the paste buffer has new content.
#[verifier::rlimit(40)]
pub proof fn law_changed_buffers_are_reported(state: ParserView, name: Seq<char>)
    requires
        state.preamble_done,
        name.len() > 0 ==> encode_utf8(name).last() != 13,
    ensures
        reports(
            state,
            encode_utf8("%paste-buffer-changed "@) + encode_utf8(name),
            EventView::PasteBufferChanged(name),
        ),
{
    let text = encode_utf8(name);
    reveal_strlit("%paste-buffer-changed ");
    reveal_strlit("%paste-buffer-changed");
    reveal_strlit(" ");
    let front = encode_utf8("%paste-buffer-changed "@);
    assert("%paste-buffer-changed "@ =~= "%paste-buffer-changed"@ + " "@);
    lemma_starts("%paste-buffer-changed "@, "%paste-buffer-changed"@, " "@, text);
    let line = front + text;
    assert(line.skip(22) =~= text);
    encode_utf8_valid_utf8(name);
    encode_utf8_decode_utf8(name);
    lemma_kinds(line);
    lemma_letter(line, "%paste-buffer-changed"@, 0);
    lemma_letter(line, "%paste-buffer-changed"@, 1);
    is_ascii_chars_encode_utf8("%paste-buffer-changed "@);
    assert(front[21] == 32);
    lemma_last(front, name);
    lemma_notice(state, line);
}

/// `%layout-change` and a layout line: the layout of the window is that of
/// the line.
#[verifier::rlimit(40)]
pub proof fn law_changed_layouts_are_reported(state: ParserView, layout_line: Seq<u8>)
    requires
        state.preamble_done,
        layout_of(layout_line) is Some,
        layout_line.last() != 13,
    ensures
        reports(
            state,
            encode_utf8("%layout-change "@) + layout_line,
            EventView::LayoutChanged(layout_of(layout_line)->Some_0),
        ),
{
    reveal_strlit("%layout-change ");
    reveal_strlit("%layout-change");
    reveal_strlit(" ");
    let front = encode_utf8("%layout-change "@);
    assert("%layout-change "@ =~= "%layout-change"@ + " "@);
    lemma_starts("%layout-change "@, "%layout-change"@, " "@, layout_line);
    let line = front + layout_line;
    assert(line.skip(15) =~= layout_line);
    lemma_kinds(line);
    lemma_letter(line, "%layout-change"@, 0);
    lemma_letter(line, "%layout-change"@, 1);
    assert(line.last() == layout_line.last());
    lemma_notice(state, line);
}

/// `%exit`, with or without a reason: the connection ends, and the window is
/// told so.
#[verifier::rlimit(40)]
pub proof fn law_exits_end_the_connection(state: ParserView, reason: Seq<char>)
    requires
        state.preamble_done,
        reason.len() > 0 ==> encode_utf8(reason).last() != 13,
    ensures
        line_run(state, encode_utf8("%exit"@) + encode_utf8(reason)) == Some(
            LineRun {
                state,
                outcome: Outcome {
                    effects: seq![EffectView::Send(EventView::Exit)],
                    error: Some(TmuxError::ExitEventReceived),
                },
            },
        ),
{
    let text = encode_utf8(reason);
    reveal_strlit("%exit");
    let front = encode_utf8("%exit"@);
    assert("%exit"@ =~= "%exit"@ + Seq::<char>::empty());
    lemma_starts("%exit"@, "%exit"@, Seq::<char>::empty(), text);
    let line = front + text;
    assert(line.skip(5) =~= text);
    encode_utf8_valid_utf8(reason);
    lemma_kinds(line);
    lemma_letter(line, "%exit"@, 0);
    lemma_letter(line, "%exit"@, 1);
    lemma_letter(line, "%exit"@, 2);
    is_ascii_chars_encode_utf8("%exit"@);
    assert(front[4] == 116);
    lemma_last(front, reason);
    lemma_notice(state, line);
}

// ---------------------------------------------------------------------------
// Replies
// ---------------------------------------------------------------------------

/// A reply is framed by `%begin` and `%end`: the first drops what was held
/// back and waits for the command that is answered, and the second brings
/// what the reply to that command brings, exactly where there was one.
pub proof fn law_replies_are_framed(state: ParserView, numbers: Seq<u8>)
    requires
        state.preamble_done,
        numbers.len() > 0 ==> numbers.last() != 13,
    ensures
        line_run(state, encode_utf8("%begin"@) + numbers) == Some(
            LineRun {
                state: ParserView {
                    command: None,
                    lines: Seq::empty(),
                    preamble_done: true,
                    awaiting: true,
                },
                outcome: Outcome { effects: Seq::empty(), error: None },
            },
        ),
        ({
            let end = line_run(state, encode_utf8("%end"@) + numbers);
            &&& state.command is None ==> end is Some && end->Some_0.outcome.effects.len() == 0
                && end->Some_0.outcome.error is None
            &&& state.command matches Some(command) ==> {
                &&& end is Some <==> reply(command, state.lines) is Some
                &&& end is Some ==> end->Some_0.outcome == reply(command, state.lines)->Some_0
            }
            &&& end is Some && end->Some_0.outcome.error is None ==> end->Some_0.state == (
            ParserView { command: None, lines: Seq::empty(), ..state })
        }),
{
    reveal(line_run);
    reveal_strlit("%begin");
    reveal_strlit("%end");
    let empty = Seq::<char>::empty();
    assert("%begin"@ =~= "%begin"@ + empty);
    assert("%end"@ =~= "%end"@ + empty);
    lemma_starts("%begin"@, "%begin"@, empty, numbers);
    lemma_starts("%end"@, "%end"@, empty, numbers);
    is_ascii_chars_encode_utf8("%begin"@);
    is_ascii_chars_encode_utf8("%end"@);
    let begin = encode_utf8("%begin"@) + numbers;
    let end = encode_utf8("%end"@) + numbers;
    assert(begin[0] == 37 && end[0] == 37);
    assert(encode_utf8("%begin"@)[5] == 110);
    assert(encode_utf8("%end"@)[3] == 100);
    if numbers.len() > 0 {
        assert(begin.last() == numbers.last() && end.last() == numbers.last());
    } else {
        assert(begin =~= encode_utf8("%begin"@));
        assert(end =~= encode_utf8("%end"@));
    }
    lemma_kinds(begin);
    lemma_kinds(end);
    lemma_letter(begin, "%begin"@, 1);
    lemma_letter(end, "%end"@, 1);
}

/// The first `%begin` ends the preamble, even where something stands before
/// it in its line.
pub proof fn law_first_begin_ends_the_preamble(state: ParserView, before: Seq<u8>, numbers: Seq<u8>)
    requires
        !state.preamble_done,
        numbers.len() > 0 ==> numbers.last() != 13,
    ensures
        line_run(state, before + encode_utf8("%begin"@) + numbers) == Some(
            LineRun {
                state: ParserView {
                    command: None,
                    lines: Seq::empty(),
                    preamble_done: true,
                    awaiting: true,
                },
                outcome: Outcome { effects: Seq::empty(), error: None },
            },
        ),
{
    reveal(line_run);
    reveal_strlit("%begin");
    is_ascii_chars_encode_utf8("%begin"@);
    let begin = encode_utf8("%begin"@);
    let line = before + begin + numbers;
    assert(begin[5] == 110);
    if numbers.len() > 0 {
        assert(line.last() == numbers.last());
    } else {
        assert(line.last() == begin[5]);
    }
    assert(line.subrange(before.len() as int, (before.len() + begin.len()) as int) =~= begin);
    assert(occurs_at(line, begin, before.len() as int));
}

/// Whether the lines of the reply mean nothing, only its end does.
pub open spec fn answers_by_its_end(command: TmuxCommand) -> bool {
    match command {
        TmuxCommand::TabNew
        | TmuxCommand::InitialLayout
        | TmuxCommand::InitialOutput(_)
        | TmuxCommand::PaneCurrentPath(_) => false,
        _ => true,
    }
}

proof fn lemma_silent_lines(command: TmuxCommand, lines: Seq<Seq<u8>>)
    requires
        answers_by_its_end(command),
    ensures
        reply_lines(command, lines) is Some,
        reply_lines(command, lines)->Some_0.error is None,
        reply_lines(command, lines)->Some_0.effects == Seq::<EffectView>::empty(),
    decreases lines.len(),
{
    if lines.len() > 0 {
        lemma_silent_lines(command, lines.drop_last());
        assert(Seq::<EffectView>::empty() + Seq::<EffectView>::empty() =~= Seq::empty());
    }
}

/// Whether the reply brings exactly the given event.
pub open spec fn answers(command: TmuxCommand, lines: Seq<Seq<u8>>, event: EventView) -> bool {
    reply(command, lines) == Some(
        Outcome { effects: seq![EffectView::Send(event)], error: None },
    )
}

/// What the window waits for is reported once the command is answered: the
/// size, the cleared scrollback, the key press, and the content of a paste
/// buffer, whose lines are separated by line feeds. All other commands bring
/// nothing.
pub proof fn law_answered_commands_are_reported(
    lines: Seq<Seq<u8>>,
    cols: i32,
    rows: i32,
    id: u32,
    command: TmuxCommand,
)
    ensures
        answers(TmuxCommand::ChangeSize(cols, rows), lines, EventView::SizeChanged),
        answers(TmuxCommand::ClearScrollback(id), lines, EventView::ScrollbackCleared(id)),
        answers(TmuxCommand::Keypress, lines, EventView::KeypressAck),
        exists|content: Seq<u8>|
            {
                &&& #[trigger] answers(
                    TmuxCommand::FetchBuffer,
                    lines,
                    EventView::ClipboardText(utf8_lossy(content)),
                )
                &&& lines.len() > 0 ==> content.push(10) == ended_lines(lines, seq![10u8])
                &&& lines.len() == 0 ==> content.len() == 0
            },
        command is Init || command is TabClose || command is TabSelect || command is TabRename
            || command is PaneSplit || command is PaneClose || command is PaneSelect
            || command is PaneMoveFocus || command is PaneZoom || command is PaneResize
            || command is SetBuffer ==> reply(command, lines) == Some(
            Outcome { effects: Seq::empty(), error: None },
        ),
{
    lemma_silent_lines(TmuxCommand::ChangeSize(cols, rows), lines);
    lemma_silent_lines(TmuxCommand::ClearScrollback(id), lines);
    lemma_silent_lines(TmuxCommand::Keypress, lines);
    lemma_silent_lines(TmuxCommand::FetchBuffer, lines);
    let content = joined(lines);
    assert(Seq::<EffectView>::empty() + Seq::<EffectView>::empty() =~= Seq::empty());
    let none = Seq::<EffectView>::empty();
    assert(none + seq![EffectView::Send(EventView::SizeChanged)] =~= seq![
        EffectView::Send(EventView::SizeChanged),
    ]);
    assert(none + seq![EffectView::Send(EventView::ScrollbackCleared(id))] =~= seq![
        EffectView::Send(EventView::ScrollbackCleared(id)),
    ]);
    assert(none + seq![EffectView::Send(EventView::KeypressAck)] =~= seq![
        EffectView::Send(EventView::KeypressAck),
    ]);
    let text = EventView::ClipboardText(utf8_lossy(content));
    assert(none + seq![EffectView::Send(text)] =~= seq![EffectView::Send(text)]);
    assert(answers(TmuxCommand::FetchBuffer, lines, text));
    if lines.len() > 0 {
        lemma_joined_lines(lines);
    }
    if answers_by_its_end(command) {
        lemma_silent_lines(command, lines);
    }
}

proof fn lemma_ended_back(lines: Seq<Seq<u8>>, ending: Seq<u8>)
    requires
        lines.len() > 0,
    ensures
        ended_lines(lines, ending) == ended_lines(lines.drop_last(), ending) + lines.last()
            + ending,
    decreases lines.len(),
{
    if lines.len() == 1 {
        assert(lines.drop_last() =~= Seq::empty());
        assert(lines.skip(1) =~= Seq::empty());
        assert(ended_lines(lines, ending) =~= ended_lines(lines.drop_last(), ending) + lines.last()
            + ending);
    } else {
        lemma_ended_back(lines.skip(1), ending);
        assert(lines.skip(1).drop_last() =~= lines.drop_last().skip(1));
        assert(lines.drop_last()[0] == lines[0]);
        assert(ended_lines(lines, ending) =~= ended_lines(lines.drop_last(), ending) + lines.last()
            + ending);
    }
}

proof fn lemma_joined_lines(lines: Seq<Seq<u8>>)
    requires
        lines.len() > 0,
    ensures
        joined(lines).push(10) == ended_lines(lines, seq![10u8]),
    decreases lines.len(),
{
    lemma_ended_back(lines, seq![10u8]);
    let front = lines.drop_last();
    if lines.len() == 1 {
        assert(front =~= Seq::empty());
        assert(joined(lines).push(10) =~= ended_lines(front, seq![10u8]) + lines.last() + seq![
            10u8,
        ]);
    } else {
        lemma_joined_lines(front);
        assert(joined(lines).push(10) =~= joined(front).push(10) + lines.last() + seq![10u8]);
    }
}

/// The effect that reports a layout, of the session that is attached or of a
/// new window.
pub open spec fn layout_effect(initial: bool, layout: Option<LayoutView>) -> EffectView {
    EffectView::Send(
        if initial {
            EventView::InitialLayout(layout->Some_0)
        } else {
            EventView::TabNew(layout->Some_0)
        },
    )
}

/// The effects that report the layouts of some lines.
pub open spec fn layout_effects(initial: bool, layouts: Seq<Option<LayoutView>>) -> Seq<
    EffectView,
> {
    Seq::new(layouts.len(), |i: int| layout_effect(initial, layouts[i]))
}

/// The layouts that some lines describe.
pub open spec fn layouts_of(lines: Seq<Seq<u8>>) -> Seq<Option<LayoutView>> {
    Seq::new(lines.len(), |i: int| layout_of(lines[i]))
}

/// The command that is answered with layouts.
pub open spec fn layout_command(initial: bool) -> TmuxCommand {
    if initial {
        TmuxCommand::InitialLayout
    } else {
        TmuxCommand::TabNew
    }
}

proof fn lemma_layout_line(initial: bool, line: Seq<u8>, index: nat)
    requires
        layout_of(line) is Some,
    ensures
        line.len() > 0,
        reply_line(layout_command(initial), line, index) == Some(
            Outcome { effects: seq![layout_effect(initial, layout_of(line))], error: None },
        ),
{
}

proof fn lemma_reply_grows(
    command: TmuxCommand,
    lines: Seq<Seq<u8>>,
    before: Outcome,
    this: Outcome,
)
    requires
        lines.len() > 0,
        lines.last().len() > 0,
        reply_lines(command, lines.drop_last()) == Some(before),
        before.error is None,
        forall|index: nat| #[trigger] reply_line(command, lines.last(), index) == Some(this),
    ensures
        reply_lines(command, lines) == Some(
            Outcome { effects: before.effects + this.effects, error: this.error },
        ),
{
}

proof fn lemma_layout_lines(initial: bool, lines: Seq<Seq<u8>>)
    requires
        forall|i: int| 0 <= i < lines.len() ==> #[trigger] layouts_of(lines)[i] is Some,
    ensures
        reply_lines(layout_command(initial), lines) == Some(
            Outcome { effects: layout_effects(initial, layouts_of(lines)), error: None },
        ),
    decreases lines.len(),
{
    let all = layouts_of(lines);
    if lines.len() > 0 {
        let front = lines.drop_last();
        assert(layouts_of(front) =~= all.drop_last());
        assert forall|i: int| 0 <= i < front.len() implies #[trigger] layouts_of(
            front,
        )[i] is Some by {
            assert(all[i] is Some);
        }
        lemma_layout_lines(initial, front);
        assert(all[lines.len() - 1] is Some);
        let this = Outcome {
            effects: seq![layout_effect(initial, all.last())],
            error: None::<TmuxError>,
        };
        assert forall|index: nat|
            #[trigger] reply_line(layout_command(initial), lines.last(), index) == Some(this) by {
            lemma_layout_line(initial, lines.last(), index);
        }
        lemma_layout_line(initial, lines.last(), 0);
        let before = Outcome {
            effects: layout_effects(initial, layouts_of(front)),
            error: None::<TmuxError>,
        };
        lemma_reply_grows(layout_command(initial), lines, before, this);
        assert(before.effects + this.effects =~= layout_effects(initial, all));
    } else {
        assert(layout_effects(initial, all) =~= Seq::empty());
    }
}

/// Every window that the reply lists is reported, in order, with its layout;
/// the list of all windows ends with the news that it is complete.
pub proof fn law_listed_windows_are_reported(lines: Seq<Seq<u8>>)
    requires
        forall|i: int| 0 <= i < lines.len() ==> layout_of(#[trigger] lines[i]) is Some,
    ensures
        ({
            let all = reply(TmuxCommand::InitialLayout, lines);
            &&& all is Some
            &&& all->Some_0.error is None
            &&& all->Some_0.effects.len() == lines.len() + 1
            &&& all->Some_0.effects.last() == EffectView::Send(EventView::InitialLayoutFinished)
            &&& forall|i: int|
                0 <= i < lines.len() ==> #[trigger] all->Some_0.effects[i] == EffectView::Send(
                    EventView::InitialLayout(layout_of(lines[i])->Some_0),
                )
        }),
        ({
            let added = reply(TmuxCommand::TabNew, lines);
            &&& added is Some
            &&& added->Some_0.error is None
            &&& added->Some_0.effects.len() == lines.len()
            &&& forall|i: int|
                0 <= i < lines.len() ==> #[trigger] added->Some_0.effects[i] == EffectView::Send(
                    EventView::TabNew(layout_of(lines[i])->Some_0),
                )
        }),
{
    assert forall|i: int| 0 <= i < lines.len() implies #[trigger] layouts_of(lines)[i] is Some by {
        assert(layout_of(lines[i]) is Some);
    }
    lemma_layout_lines(true, lines);
    lemma_layout_lines(false, lines);
    let effects = layout_effects(true, layouts_of(lines));
    assert(effects + seq![EffectView::Send(EventView::InitialLayoutFinished)] =~= effects.push(
        EffectView::Send(EventView::InitialLayoutFinished),
    ));
    let added = layout_effects(false, layouts_of(lines));
    assert(added + Seq::<EffectView>::empty() =~= added);
}

/// Of the panes that Tmux lists with their paths, an editor opens on the path
/// of the asked one, and on no other.
pub proof fn law_editor_opens_on_the_asked_pane(pane_id: u32, listed: u32, path: Seq<char>)
    ensures
        ({
            let line = encode_utf8("path: %"@) + written(listed) + seq![32u8] + encode_utf8(path);
            reply(TmuxCommand::PaneCurrentPath(pane_id), seq![line]) == Some(
                Outcome {
                    effects: if listed == pane_id {
                        seq![EffectView::OpenEditor(path)]
                    } else {
                        Seq::empty()
                    },
                    error: None,
                },
            )
        }),
{
    reveal_strlit("path: %");
    let text = encode_utf8(path);
    let front = encode_utf8("path: %"@);
    is_ascii_chars_encode_utf8("path: %"@);
    let rest = seq![32u8] + text;
    let line = front + written(listed) + seq![32u8] + text;
    assert(line =~= front + written(listed) + rest);
    lemma_number_field(front, listed, rest);
    assert(line.skip((front.len() + written(listed).len() + 1) as int) =~= text);
    encode_utf8_valid_utf8(path);
    encode_utf8_decode_utf8(path);
    let command = TmuxCommand::PaneCurrentPath(pane_id);
    let lines = seq![line];
    assert(lines.drop_last() =~= Seq::empty());
    reveal_with_fuel(reply_lines, 2);
    let effects = if listed == pane_id {
        seq![EffectView::OpenEditor(path)]
    } else {
        Seq::empty()
    };
    assert(Seq::<EffectView>::empty() + effects + Seq::<EffectView>::empty() =~= effects);
}

/// A notification of a kind that means nothing to the client is ignored, where
/// it is UTF-8.
pub proof fn law_other_notifications_are_ignored(state: ParserView, line: Seq<u8>)
    requires
        state.preamble_done,
        line.len() >= 2,
        line[0] == 37,
        line.last() != 13,
        valid_utf8(line),
        line[1] != 98 && line[1] != 101 && line[1] != 111 && line[1] != 119 && line[1] != 115
            && line[1] != 117 && line[1] != 108 && line[1] != 112,
    ensures
        line_run(state, line) == Some(
            LineRun { state, outcome: Outcome { effects: Seq::empty(), error: None } },
        ),
{
    lemma_kinds(line);
    lemma_notice(state, line);
}

} // verus!
