//! Parsing of what Tmux writes to a control-mode client.

use vmap::io::Ring;
use vstd::prelude::*;
use vstd::slice::{slice_subrange, slice_to_vec};
use vstd::utf8::{decode_utf8, encode_utf8, is_ascii_chars_encode_utf8, valid_utf8};

use super::parse_layout::{layout_of, parse_tmux_layout};
use super::ring::{as_read_slice, consume, read_len, ring_free, ring_unread};
use super::{
    effects_view, lines_view, EffectView, EventView, ParserEffect, ParserView, TmuxCommand,
    TmuxEvent, TmuxParserState,
};
use crate::helpers::TmuxError;
use crate::text::{contains_text, occurs_at};

verus! {

/// Whether `b` is an ASCII digit.
pub open spec fn is_digit(b: u8) -> bool {
    48 <= b <= 57
}

/// Number of ASCII digits at the start of `s`.
pub open spec fn digit_run(s: Seq<u8>) -> nat
    decreases s.len(),
{
    if s.len() > 0 && is_digit(s[0]) {
        1 + digit_run(s.skip(1))
    } else {
        0
    }
}

/// The number that the digits `s` write in base ten.
pub open spec fn digits_value(s: Seq<u8>) -> nat
    decreases s.len(),
{
    if s.len() == 0 {
        0
    } else {
        digits_value(s.drop_last()) * 10 + (s.last() - 48) as nat
    }
}

/// The number written at the start of `s` (0 where there is none).
pub open spec fn leading_number(s: Seq<u8>) -> nat {
    digits_value(s.take(digit_run(s) as int))
}

proof fn lemma_digits_value_prefix(s: Seq<u8>, m: int, n: int)
    requires
        0 <= m <= n <= s.len(),
        forall|i: int| 0 <= i < n ==> is_digit(#[trigger] s[i]),
    ensures
        digits_value(s.take(m)) <= digits_value(s.take(n)),
    decreases n - m,
{
    if m < n {
        lemma_digits_value_prefix(s, m, n - 1);
        assert(s.take(n).drop_last() =~= s.take(n - 1));
        assert(is_digit(s[n - 1]));
    }
}

/// The number at the start of `buffer`, and the bytes read: the digits and
/// the one byte behind them.
pub fn read_first_u32(buffer: &[u8]) -> (r: (u32, usize))
    requires
        leading_number(buffer@) <= u32::MAX,
        buffer@.len() < usize::MAX,
    ensures
        r.0 == leading_number(buffer@),
        r.1 == digit_run(buffer@) + 1,
{
    let ghost run = digit_run(buffer@);
    let mut i: usize = 0;
    let mut number: u32 = 0;
    proof {
        lemma_digit_run_facts(buffer@);
        assert(buffer@.take(0) =~= Seq::empty());
    }
    while i < buffer.len() && buffer[i] > 47 && buffer[i] < 58
        invariant
            i <= run <= buffer@.len(),
            run == digit_run(buffer@),
            forall|j: int| 0 <= j < run ==> is_digit(#[trigger] buffer@[j]),
            run == buffer@.len() || !is_digit(buffer@[run as int]),
            number == digits_value(buffer@.take(i as int)),
            digits_value(buffer@.take(run as int)) <= u32::MAX,
        ensures
            i == run,
        decreases buffer@.len() - i,
    {
        proof {
            assert(i < run);
            lemma_digits_value_prefix(buffer@, i + 1, run as int);
            assert(buffer@.take(i + 1).drop_last() =~= buffer@.take(i as int));
        }
        number = number * 10 + (buffer[i] - 48) as u32;
        i += 1;
    }
    (number, i + 1)
}

/// As `read_first_u32`, without a bound on the number: `None` where it does
/// not fit. The length is that of the digits alone.
pub fn leading_digits(buffer: &[u8]) -> (r: Option<(u32, usize)>)
    ensures
        r matches Some((number, n)) ==> number == leading_number(buffer@) && n == digit_run(
            buffer@,
        ),
        r is None ==> leading_number(buffer@) > u32::MAX,
{
    let ghost run = digit_run(buffer@);
    let mut i: usize = 0;
    let mut number: u32 = 0;
    proof {
        lemma_digit_run_facts(buffer@);
        assert(buffer@.take(0) =~= Seq::empty());
    }
    while i < buffer.len() && buffer[i] > 47 && buffer[i] < 58
        invariant
            i <= run <= buffer@.len(),
            run == digit_run(buffer@),
            forall|j: int| 0 <= j < run ==> is_digit(#[trigger] buffer@[j]),
            run == buffer@.len() || !is_digit(buffer@[run as int]),
            number == digits_value(buffer@.take(i as int)),
        ensures
            i == run,
        decreases buffer@.len() - i,
    {
        proof {
            assert(i < run);
            lemma_digits_value_prefix(buffer@, i + 1, run as int);
            assert(buffer@.take(i + 1).drop_last() =~= buffer@.take(i as int));
        }
        let next: u64 = number as u64 * 10 + (buffer[i] - 48) as u64;
        if next > 0xffff_ffff {
            return None;
        }
        number = next as u32;
        i += 1;
    }
    Some((number, i))
}

pub proof fn lemma_digit_run_facts(s: Seq<u8>)
    ensures
        digit_run(s) <= s.len(),
        forall|i: int| 0 <= i < digit_run(s) ==> is_digit(#[trigger] s[i]),
        digit_run(s) == s.len() || !is_digit(s[digit_run(s) as int]),
    decreases s.len(),
{
    if s.len() > 0 && is_digit(s[0]) {
        lemma_digit_run_facts(s.skip(1));
        assert forall|i: int| 0 <= i < digit_run(s) implies is_digit(#[trigger] s[i]) by {
            if i > 0 {
                assert(s[i] == s.skip(1)[i - 1]);
            }
        }
    }
}

/// Trusted: `std::str::from_utf8` succeeds exactly on valid UTF-8, and then
/// gives the text that the bytes encode.
#[verifier::external_body]
fn str_from_utf8(buffer: &[u8]) -> (r: Option<&str>)
    ensures
        r is Some <==> valid_utf8(buffer@),
        r matches Some(text) ==> text@ == decode_utf8(buffer@),
{
    match std::str::from_utf8(buffer) {
        Ok(text) => Some(text),
        Err(_) => None,
    }
}

/// The text that `buffer` encodes.
pub fn parse_utf8(buffer: &[u8]) -> (r: Result<&str, TmuxError>)
    ensures
        r is Ok <==> valid_utf8(buffer@),
        r matches Ok(text) ==> text@ == decode_utf8(buffer@),
        r matches Err(err) ==> err == TmuxError::ErrorParsingUTF8,
{
    match str_from_utf8(buffer) {
        Some(text) => Ok(text),
        None => Err(TmuxError::ErrorParsingUTF8),
    }
}

/// Trusted: `String::from_utf8_lossy` depends on the bytes alone, and gives
/// the text that they encode where they are valid UTF-8. What it puts in
/// place of other bytes is left to the name.
#[verifier::external_body]
fn string_from_utf8_lossy(buffer: &[u8]) -> (r: String)
    ensures
        r@ == utf8_lossy(buffer@),
        valid_utf8(buffer@) ==> r@ == decode_utf8(buffer@),
{
    String::from_utf8_lossy(buffer).into_owned()
}

/// What `String::from_utf8_lossy` makes of the bytes.
pub uninterp spec fn utf8_lossy(bytes: Seq<u8>) -> Seq<char>;

// ---------------------------------------------------------------------------
// Escapes
// ---------------------------------------------------------------------------

/// The number of three octal digits.
pub open spec fn octal(a: u8, b: u8, c: u8) -> int {
    (a - 48) * 64 + (b - 48) * 8 + (c - 48)
}

/// Whether every backslash of `s` starts an escape: two backslashes, or a
/// backslash and the three octal digits of a byte.
pub open spec fn escapes_ok(s: Seq<u8>) -> bool
    decreases s.len(),
{
    if s.len() == 0 {
        true
    } else if s[0] != 92 {
        escapes_ok(s.skip(1))
    } else if s.len() >= 2 && s[1] == 92 {
        escapes_ok(s.skip(2))
    } else {
        &&& s.len() >= 4
        &&& s[1] >= 48
        &&& s[2] >= 48
        &&& s[3] >= 48
        &&& octal(s[1], s[2], s[3]) <= 255
        &&& escapes_ok(s.skip(4))
    }
}

/// The bytes that `s` stands for once its escapes are resolved.
pub open spec fn unescaped(s: Seq<u8>) -> Seq<u8>
    decreases s.len(),
{
    if s.len() == 0 {
        Seq::empty()
    } else if s[0] != 92 {
        seq![s[0]] + unescaped(s.skip(1))
    } else if s.len() >= 2 && s[1] == 92 {
        seq![92u8] + unescaped(s.skip(2))
    } else if s.len() >= 4 {
        seq![octal(s[1], s[2], s[3]) as u8] + unescaped(s.skip(4))
    } else {
        Seq::empty()
    }
}

/// `n` line breaks.
pub open spec fn line_breaks(n: nat) -> Seq<u8>
    decreases n,
{
    if n == 0 {
        Seq::empty()
    } else {
        line_breaks((n - 1) as nat) + seq![13u8, 10u8]
    }
}

/// Appends the bytes that `input` stands for; false where an escape of it is
/// broken.
fn unescape_into(input: &[u8], output: &mut Vec<u8>) -> (ok: bool)
    ensures
        ok == escapes_ok(input@),
        ok ==> final(output)@ == old(output)@ + unescaped(input@),
{
    let mut i: usize = 0;
    assert(input@.skip(0) =~= input@);
    assert(output@ + unescaped(input@) =~= old(output)@ + unescaped(input@));
    while i < input.len()
        invariant
            i <= input@.len(),
            escapes_ok(input@) == escapes_ok(input@.skip(i as int)),
            output@ + unescaped(input@.skip(i as int)) == old(output)@ + unescaped(input@),
        decreases input@.len() - i,
    {
        let ghost rest = input@.skip(i as int);
        let ghost before = output@;
        let left: usize = input.len() - i;
        if input[i] != 92 {
            output.push(input[i]);
            i += 1;
            proof {
                assert(rest.skip(1) =~= input@.skip(i as int));
                assert(output@ + unescaped(rest.skip(1)) =~= before + unescaped(rest));
            }
        } else if left >= 2 && input[i + 1] == 92 {
            output.push(92);
            i += 2;
            proof {
                assert(rest.skip(2) =~= input@.skip(i as int));
                assert(output@ + unescaped(rest.skip(2)) =~= before + unescaped(rest));
            }
        } else {
            if left < 4 || input[i + 1] < 48 || input[i + 2] < 48 || input[i + 3] < 48 {
                return false;
            }
            let code: u32 = (input[i + 1] - 48) as u32 * 64 + (input[i + 2] - 48) as u32 * 8 + (
            input[i + 3] - 48) as u32;
            if code > 255 {
                return false;
            }
            output.push(code as u8);
            i += 4;
            proof {
                assert(rest.skip(4) =~= input@.skip(i as int));
                assert(output@ + unescaped(rest.skip(4)) =~= before + unescaped(rest));
            }
        }
    }
    assert(output@ + unescaped(input@.skip(i as int)) =~= output@);
    true
}

/// Parses Tmux output and replaces octal escape sequences with the bytes they
/// stand for, behind a line break where `prepend_linebreak` is set and
/// `empty_lines` more.
pub fn parse_escaped_output(input: &[u8], prepend_linebreak: bool, empty_lines: usize) -> (output:
    Vec<u8>)
    requires
        escapes_ok(input@),
    ensures
        output@ == line_breaks(prepend_linebreak as nat) + line_breaks(empty_lines as nat)
            + unescaped(input@),
{
    let mut output: Vec<u8> = Vec::new();
    push_line_breaks(&mut output, if prepend_linebreak { 1 } else { 0 });
    push_line_breaks(&mut output, empty_lines);
    let ok = unescape_into(input, &mut output);
    assert(ok);
    assert(output@ =~= line_breaks(prepend_linebreak as nat) + line_breaks(empty_lines as nat)
        + unescaped(input@));
    output
}

fn push_line_breaks(output: &mut Vec<u8>, n: usize)
    ensures
        final(output)@ == old(output)@ + line_breaks(n as nat),
{
    let mut i: usize = 0;
    assert(output@ =~= old(output)@ + line_breaks(0));
    while i < n
        invariant
            i <= n,
            output@ == old(output)@ + line_breaks(i as nat),
        decreases n - i,
    {
        output.push(13);
        output.push(10);
        i += 1;
        assert(output@ =~= old(output)@ + line_breaks(i as nat));
    }
}

// ---------------------------------------------------------------------------
// Lines
// ---------------------------------------------------------------------------

/// Whether the line starts with the UTF-8 bytes of `prefix`.
pub open spec fn starts_with(line: Seq<u8>, prefix: Seq<char>) -> bool {
    encode_utf8(prefix).is_prefix_of(line)
}

/// Whether `buffer` starts with the bytes of `prefix`.
pub fn buffer_starts_with(buffer: &[u8], prefix: &str) -> (r: bool)
    ensures
        r == starts_with(buffer@, prefix@),
{
    let bytes = prefix.as_bytes();
    if bytes.len() > buffer.len() {
        return false;
    }
    let mut i: usize = 0;
    while i < bytes.len()
        invariant
            bytes@ == encode_utf8(prefix@),
            i <= bytes@.len() <= buffer@.len(),
            forall|j: int| 0 <= j < i ==> buffer@[j] == #[trigger] bytes@[j],
        decreases bytes@.len() - i,
    {
        if buffer[i] != bytes[i] {
            assert(buffer@.subrange(0, bytes@.len() as int)[i as int] != bytes@[i as int]);
            return false;
        }
        i += 1;
    }
    true
}

/// Whether the bytes of `text` stand anywhere in `line`.
fn line_contains(line: &[u8], text: &str) -> (r: bool)
    ensures
        r == contains_text(line@, encode_utf8(text@)),
{
    let bytes = text.as_bytes();
    if bytes.len() > line.len() {
        return false;
    }
    let last: usize = line.len() - bytes.len();
    let mut i: usize = 0;
    loop
        invariant
            bytes@ == encode_utf8(text@),
            last + bytes@.len() == line@.len() <= usize::MAX,
            i <= last,
            forall|k: int| 0 <= k < i ==> !#[trigger] occurs_at(line@, bytes@, k),
        decreases last - i,
    {
        let mut j: usize = 0;
        while j < bytes.len() && line[i + j] == bytes[j]
            invariant
                i <= last,
                last + bytes@.len() == line@.len() <= usize::MAX,
                j <= bytes@.len(),
                forall|k: int| 0 <= k < j ==> line@[i + k] == #[trigger] bytes@[k],
            ensures
                j == bytes@.len() || line@[i + j] != bytes@[j as int],
            decreases bytes@.len() - j,
        {
            j += 1;
        }
        if j == bytes.len() {
            assert(line@.subrange(i as int, i + bytes@.len()) =~= bytes@);
            assert(occurs_at(line@, bytes@, i as int));
            return true;
        }
        assert(line@.subrange(i as int, i + bytes@.len())[j as int] != bytes@[j as int]);
        if i == last {
            return false;
        }
        i += 1;
    }
}

/// A line without the carriage return that may end it.
pub open spec fn without_cr(line: Seq<u8>) -> Seq<u8> {
    if line.len() > 0 && line.last() == 13 {
        line.drop_last()
    } else {
        line
    }
}

/// The number at `at`, and the position behind it and the byte that ends it.
pub open spec fn number_field(n: Seq<u8>, at: int) -> Option<(u32, int)> {
    if at <= n.len() && leading_number(n.skip(at)) <= u32::MAX {
        Some((leading_number(n.skip(at)) as u32, at + digit_run(n.skip(at)) + 1))
    } else {
        None
    }
}

/// The text from `at` on.
pub open spec fn text_field(n: Seq<u8>, at: int) -> Option<Result<Seq<char>, TmuxError>> {
    if at > n.len() {
        None
    } else if valid_utf8(n.skip(at)) {
        Some(Ok(decode_utf8(n.skip(at))))
    } else {
        Some(Err(TmuxError::ErrorParsingUTF8))
    }
}

/// The number at `at`, and the position behind its digits.
fn read_number_field(n: &[u8], at: usize) -> (r: Option<(u32, usize)>)
    ensures
        r matches Some((value, end)) ==> number_field(n@, at as int) == Some(
            (value, end as int + 1),
        ) && end <= n@.len(),
        r is None ==> number_field(n@, at as int) is None,
{
    if at > n.len() {
        return None;
    }
    let rest = slice_subrange(n, at, n.len());
    assert(rest@ =~= n@.skip(at as int));
    proof {
        lemma_digit_run_facts(rest@);
    }
    match leading_digits(rest) {
        Some((value, digits)) => Some((value, at + digits)),
        None => None,
    }
}

fn read_text_field(n: &[u8], at: usize) -> (r: Option<Result<String, TmuxError>>)
    ensures
        match r {
            None => text_field(n@, at as int) is None,
            Some(Ok(text)) => text_field(n@, at as int) == Some(
                Ok::<Seq<char>, TmuxError>(text@),
            ),
            Some(Err(err)) => text_field(n@, at as int) == Some(Err::<Seq<char>, TmuxError>(err)),
        },
{
    if at > n.len() {
        return None;
    }
    let rest = slice_subrange(n, at, n.len());
    assert(rest@ =~= n@.skip(at as int));
    match parse_utf8(rest) {
        Ok(text) => Some(Ok(text.to_string())),
        Err(err) => Some(Err(err)),
    }
}

// ---------------------------------------------------------------------------
// Replies
// ---------------------------------------------------------------------------

/// What one parsed thing brings: effects, and the error that stops the parser.
pub struct Outcome {
    pub effects: Seq<EffectView>,
    pub error: Option<TmuxError>,
}

pub open spec fn no_outcome() -> Outcome {
    Outcome { effects: Seq::empty(), error: None }
}

pub open spec fn sends(event: EventView) -> Outcome {
    Outcome { effects: seq![EffectView::Send(event)], error: None }
}

pub open spec fn fails(error: TmuxError) -> Outcome {
    Outcome { effects: Seq::empty(), error: Some(error) }
}

/// What a non-empty line of the reply to `command` brings, where `index`
/// such lines stood before it. `None` where the line is malformed.
pub open spec fn reply_line(command: TmuxCommand, line: Seq<u8>, index: nat) -> Option<Outcome> {
    match command {
        TmuxCommand::TabNew => match layout_of(line) {
            Some(layout) => Some(sends(EventView::TabNew(layout))),
            None => None,
        },
        TmuxCommand::InitialLayout => match layout_of(line) {
            Some(layout) => Some(sends(EventView::InitialLayout(layout))),
            None => None,
        },
        TmuxCommand::InitialOutput(pane_id) => if escapes_ok(line) {
            Some(
                sends(
                    EventView::Output(
                        pane_id,
                        line_breaks((index > 0) as nat) + unescaped(line),
                        true,
                    ),
                ),
            )
        } else {
            None
        },
        // Tmux lists every pane of the window, as `path: %id path`
        TmuxCommand::PaneCurrentPath(pane_id) => match number_field(line, 7) {
            None => None,
            Some((id, at)) => if id != pane_id {
                Some(no_outcome())
            } else {
                match text_field(line, at) {
                    None => None,
                    Some(Err(error)) => Some(fails(error)),
                    Some(Ok(path)) => Some(
                        Outcome { effects: seq![EffectView::OpenEditor(path)], error: None },
                    ),
                }
            },
        },
        _ => Some(no_outcome()),
    }
}

/// Number of non-empty lines.
pub open spec fn nonempty_lines(lines: Seq<Seq<u8>>) -> nat
    decreases lines.len(),
{
    if lines.len() == 0 {
        0
    } else {
        nonempty_lines(lines.drop_last()) + (lines.last().len() > 0) as nat
    }
}

/// What the lines of the reply to `command` bring, up to the first error.
pub open spec fn reply_lines(command: TmuxCommand, lines: Seq<Seq<u8>>) -> Option<Outcome>
    decreases lines.len(),
{
    if lines.len() == 0 {
        Some(no_outcome())
    } else {
        match reply_lines(command, lines.drop_last()) {
            None => None,
            Some(before) => if before.error is Some || lines.last().len() == 0 {
                Some(before)
            } else {
                match reply_line(command, lines.last(), nonempty_lines(lines.drop_last())) {
                    None => None,
                    Some(this) => Some(
                        Outcome { effects: before.effects + this.effects, error: this.error },
                    ),
                }
            },
        }
    }
}

/// The lines, separated by line feeds.
pub open spec fn joined(lines: Seq<Seq<u8>>) -> Seq<u8>
    decreases lines.len(),
{
    if lines.len() == 0 {
        Seq::empty()
    } else if lines.len() == 1 {
        lines[0]
    } else {
        joined(lines.drop_last()) + seq![10u8] + lines.last()
    }
}

/// What the end of the reply to `command` brings.
pub open spec fn reply_end(command: TmuxCommand, lines: Seq<Seq<u8>>) -> Seq<EffectView> {
    match command {
        TmuxCommand::InitialOutput(pane_id) => seq![
            EffectView::Send(EventView::ScrollOutput(pane_id, 0)),
            EffectView::Send(EventView::InitialOutputFinished(pane_id)),
        ],
        TmuxCommand::ChangeSize(_, _) => seq![EffectView::Send(EventView::SizeChanged)],
        TmuxCommand::InitialLayout => seq![EffectView::Send(EventView::InitialLayoutFinished)],
        TmuxCommand::ClearScrollback(pane_id) => seq![
            EffectView::Send(EventView::ScrollbackCleared(pane_id)),
        ],
        TmuxCommand::FetchBuffer => seq![
            EffectView::Send(EventView::ClipboardText(utf8_lossy(joined(lines)))),
        ],
        TmuxCommand::Keypress => seq![EffectView::Send(EventView::KeypressAck)],
        _ => Seq::empty(),
    }
}

/// What a whole reply brings.
pub open spec fn reply(command: TmuxCommand, lines: Seq<Seq<u8>>) -> Option<Outcome> {
    match reply_lines(command, lines) {
        None => None,
        Some(outcome) => if outcome.error is Some {
            Some(outcome)
        } else {
            Some(
                Outcome {
                    effects: outcome.effects + reply_end(command, lines),
                    error: None,
                },
            )
        },
    }
}

proof fn lemma_effects_push(effects: Seq<ParserEffect>, effect: ParserEffect)
    ensures
        effects_view(effects.push(effect)) == effects_view(effects) + seq![effect@],
{
    assert(effects_view(effects.push(effect)) =~= effects_view(effects) + seq![effect@]);
}

fn emit(effects: &mut Vec<ParserEffect>, effect: ParserEffect)
    ensures
        effects_view(final(effects)@) == effects_view(old(effects)@) + seq![effect@],
{
    proof {
        lemma_effects_push(effects@, effect);
    }
    effects.push(effect);
}

/// The error that an outcome is returned with.
pub open spec fn result_matches(r: Result<(), TmuxError>, error: Option<TmuxError>) -> bool {
    match r {
        Ok(_) => error is None,
        Err(err) => error == Some(err),
    }
}

/// Handles a non-empty line of the reply to `command`; `None` where it is
/// malformed.
pub fn tmux_command_result(
    command: TmuxCommand,
    line: &[u8],
    index: usize,
    effects: &mut Vec<ParserEffect>,
) -> (r: Option<Result<(), TmuxError>>)
    ensures
        r is None <==> reply_line(command, line@, index as nat) is None,
        r is None ==> final(effects)@ == old(effects)@,
        r matches Some(result) ==> {
            let outcome = reply_line(command, line@, index as nat)->Some_0;
            &&& result_matches(result, outcome.error)
            &&& effects_view(final(effects)@) == effects_view(old(effects)@) + outcome.effects
        },
{
    match command {
        TmuxCommand::TabNew => match parse_tmux_layout(line) {
            Some(layout) => {
                emit(effects, ParserEffect::Send(TmuxEvent::TabNew(layout)));
                Some(Ok(()))
            },
            None => None,
        },
        TmuxCommand::InitialLayout => match parse_tmux_layout(line) {
            Some(layout) => {
                emit(effects, ParserEffect::Send(TmuxEvent::InitialLayout(layout)));
                Some(Ok(()))
            },
            None => None,
        },
        TmuxCommand::InitialOutput(pane_id) => {
            let mut output: Vec<u8> = Vec::new();
            push_line_breaks(&mut output, if index > 0 { 1 } else { 0 });
            if !unescape_into(line, &mut output) {
                return None;
            }
            assert(output@ =~= line_breaks((index > 0) as nat) + unescaped(line@));
            emit(effects, ParserEffect::Send(TmuxEvent::Output(pane_id, output, true)));
            Some(Ok(()))
        },
        TmuxCommand::PaneCurrentPath(pane_id) => {
            let (id, end) = match read_number_field(line, 7) {
                Some(found) => found,
                None => return None,
            };
            if id != pane_id {
                assert(effects_view(effects@) + Seq::<EffectView>::empty() =~= effects_view(
                    effects@,
                ));
                return Some(Ok(()));
            }
            if end == line.len() {
                return None;
            }
            match read_text_field(line, end + 1) {
                None => None,
                Some(Err(err)) => {
                    assert(effects_view(effects@) + Seq::<EffectView>::empty() =~= effects_view(
                        effects@,
                    ));
                    Some(Err(err))
                },
                Some(Ok(path)) => {
                    emit(effects, ParserEffect::OpenEditor(path));
                    Some(Ok(()))
                },
            }
        },
        _ => {
            assert(effects_view(effects@) + Seq::<EffectView>::empty() =~= effects_view(effects@));
            Some(Ok(()))
        },
    }
}

fn join_lines(lines: &Vec<Vec<u8>>) -> (r: Vec<u8>)
    ensures
        r@ == joined(lines_view(lines@)),
{
    let mut out: Vec<u8> = Vec::new();
    let ghost all = lines_view(lines@);
    let mut i: usize = 0;
    assert(joined(all.take(0)) =~= Seq::<u8>::empty());
    while i < lines.len()
        invariant
            all == lines_view(lines@),
            i <= lines@.len(),
            out@ == joined(all.take(i as int)),
        decreases lines@.len() - i,
    {
        proof {
            assert(all.take(i + 1).drop_last() =~= all.take(i as int));
            assert(all.take(i + 1).last() == lines@[i as int]@);
        }
        if i > 0 {
            out.push(10);
        }
        out.extend_from_slice(lines[i].as_slice());
        assert(out@ =~= joined(all.take(i + 1)));
        i += 1;
    }
    assert(all.take(all.len() as int) =~= all);
    out
}

/// Handles the lines of the reply to `command`, up to the first error.
fn finish_lines(
    command: TmuxCommand,
    lines: &Vec<Vec<u8>>,
    effects: &mut Vec<ParserEffect>,
) -> (r: Option<Result<(), TmuxError>>)
    ensures
        r is None <==> reply_lines(command, lines_view(lines@)) is None,
        r matches Some(result) ==> {
            let outcome = reply_lines(command, lines_view(lines@))->Some_0;
            &&& result_matches(result, outcome.error)
            &&& effects_view(final(effects)@) == effects_view(old(effects)@) + outcome.effects
        },
{
    let ghost all = lines_view(lines@);
    let ghost start = effects_view(effects@);
    let mut i: usize = 0;
    let mut index: usize = 0;
    assert(start + Seq::<EffectView>::empty() =~= start);
    assert(all.take(0) =~= Seq::empty());
    while i < lines.len()
        invariant
            all == lines_view(lines@),
            start == effects_view(old(effects)@),
            i <= lines@.len(),
            index <= i,
            index == nonempty_lines(all.take(i as int)),
            reply_lines(command, all.take(i as int)) is Some,
            reply_lines(command, all.take(i as int))->Some_0.error is None,
            effects_view(effects@) == start + reply_lines(
                command,
                all.take(i as int),
            )->Some_0.effects,
        decreases lines@.len() - i,
    {
        let ghost before = reply_lines(command, all.take(i as int))->Some_0;
        proof {
            assert(all.take(i + 1).drop_last() =~= all.take(i as int));
            assert(all.take(i + 1).last() == lines@[i as int]@);
        }
        if lines[i].len() > 0 {
            let step = tmux_command_result(command, lines[i].as_slice(), index, effects);
            proof {
                if let Some(this) = reply_line(command, lines@[i as int]@, index as nat) {
                    assert(start + before.effects + this.effects =~= start + (before.effects
                        + this.effects));
                }
                if !(step matches Some(Ok(_))) {
                    lemma_reply_lines_stop(command, all, i + 1);
                }
            }
            match step {
                None => return None,
                Some(Err(err)) => return Some(Err(err)),
                Some(Ok(_)) => {},
            }
            index += 1;
        }
        i += 1;
    }
    assert(all.take(all.len() as int) =~= all);
    Some(Ok(()))
}

/// Emits what the end of the reply to `command` brings.
fn finish_end(command: TmuxCommand, lines: &Vec<Vec<u8>>, effects: &mut Vec<ParserEffect>)
    ensures
        effects_view(final(effects)@) == effects_view(old(effects)@) + reply_end(
            command,
            lines_view(lines@),
        ),
{
    match command {
        TmuxCommand::InitialOutput(pane_id) => {
            emit(effects, ParserEffect::Send(TmuxEvent::ScrollOutput(pane_id, 0)));
            emit(effects, ParserEffect::Send(TmuxEvent::InitialOutputFinished(pane_id)));
        },
        TmuxCommand::ChangeSize(_, _) => {
            emit(effects, ParserEffect::Send(TmuxEvent::SizeChanged));
        },
        TmuxCommand::InitialLayout => {
            emit(effects, ParserEffect::Send(TmuxEvent::InitialLayoutFinished));
        },
        TmuxCommand::ClearScrollback(pane_id) => {
            emit(effects, ParserEffect::Send(TmuxEvent::ScrollbackCleared(pane_id)));
        },
        TmuxCommand::FetchBuffer => {
            let data = join_lines(lines);
            let text = string_from_utf8_lossy(data.as_slice());
            emit(effects, ParserEffect::Send(TmuxEvent::ClipboardText(text)));
        },
        TmuxCommand::Keypress => {
            emit(effects, ParserEffect::Send(TmuxEvent::KeypressAck));
        },
        _ => {},
    }
    assert(effects_view(effects@) =~= effects_view(old(effects)@) + reply_end(
        command,
        lines_view(lines@),
    ));
}

/// Handles the reply to `command` once it is complete.
fn finish_reply(
    command: TmuxCommand,
    lines: &Vec<Vec<u8>>,
    effects: &mut Vec<ParserEffect>,
) -> (r: Option<Result<(), TmuxError>>)
    ensures
        r is None <==> reply(command, lines_view(lines@)) is None,
        r matches Some(result) ==> {
            let outcome = reply(command, lines_view(lines@))->Some_0;
            &&& result_matches(result, outcome.error)
            &&& effects_view(final(effects)@) == effects_view(old(effects)@) + outcome.effects
        },
{
    let r = finish_lines(command, lines, effects);
    if let Some(Ok(_)) = r {
        finish_end(command, lines, effects);
        proof {
            let all = lines_view(lines@);
            let outcome = reply_lines(command, all)->Some_0;
            assert(effects_view(effects@) =~= effects_view(old(effects)@) + (outcome.effects
                + reply_end(command, all)));
        }
    }
    r
}

/// Lines behind a malformed one, or behind one that fails, change nothing.
proof fn lemma_reply_lines_stop(command: TmuxCommand, lines: Seq<Seq<u8>>, n: int)
    requires
        0 <= n <= lines.len(),
        ({
            let part = reply_lines(command, lines.take(n));
            part is None || part->Some_0.error is Some
        }),
    ensures
        reply_lines(command, lines) == reply_lines(command, lines.take(n)),
    decreases lines.len(),
{
    if n == lines.len() {
        assert(lines.take(n) =~= lines);
    } else {
        assert(lines.drop_last().take(n) =~= lines.take(n));
        lemma_reply_lines_stop(command, lines.drop_last(), n);
    }
}

// ---------------------------------------------------------------------------
// Notifications
// ---------------------------------------------------------------------------

/// What `%output` brings: the output of a pane.
pub open spec fn output_event(n: Seq<u8>) -> Option<Outcome> {
    match number_field(n, 9) {
        None => None,
        Some((pane_id, at)) => if at <= n.len() && escapes_ok(n.skip(at)) {
            Some(sends(EventView::Output(pane_id, unescaped(n.skip(at)), false)))
        } else {
            None
        },
    }
}

/// The number at `at`, and the one behind it, the space that follows it and
/// a sigil.
pub open spec fn number_pair(n: Seq<u8>, at: int) -> Option<(u32, u32)> {
    match number_field(n, at) {
        None => None,
        Some((first, next)) => match number_field(n, next + 1) {
            None => None,
            Some((second, _)) => Some((first, second)),
        },
    }
}

/// The number at `at`, and the text behind it.
pub open spec fn numbered_text(n: Seq<u8>, at: int) -> Option<Result<(u32, Seq<char>), TmuxError>> {
    match number_field(n, at) {
        None => None,
        Some((id, next)) => match text_field(n, next) {
            None => None,
            Some(Err(error)) => Some(Err(error)),
            Some(Ok(text)) => Some(Ok((id, text))),
        },
    }
}

/// What a notification brings that concerns no command. `None` where it is
/// malformed.
pub open spec fn notification(n: Seq<u8>) -> Option<Outcome> {
    if starts_with(n, "%output"@) {
        // %output %1 text
        output_event(n)
    } else if starts_with(n, "%window-pane-changed"@) {
        // %window-pane-changed @0 %10
        match number_pair(n, 22) {
            None => None,
            Some((tab_id, pane_id)) => Some(sends(EventView::PaneFocusChanged(tab_id, pane_id))),
        }
    } else if starts_with(n, "%window-add"@) {
        // %window-add @32
        match number_field(n, 13) {
            None => None,
            Some((tab_id, _)) => Some(sends(EventView::WindowAdded(tab_id))),
        }
    } else if starts_with(n, "%session-window-changed"@) {
        // %session-window-changed $1 @1
        match number_pair(n, 25) {
            None => None,
            Some((_, tab_id)) => Some(sends(EventView::TabFocusChanged(tab_id))),
        }
    } else if starts_with(n, "%unlinked-window-close"@) {
        // %unlinked-window-close @6
        match number_field(n, 24) {
            None => None,
            Some((tab_id, _)) => Some(sends(EventView::TabClosed(tab_id))),
        }
    } else if starts_with(n, "%window-close"@) {
        // %window-close @6
        match number_field(n, 15) {
            None => None,
            Some((tab_id, _)) => Some(sends(EventView::TabClosed(tab_id))),
        }
    } else if starts_with(n, "%layout-change"@) {
        // %layout-change @1 layout visible-layout flags
        if n.len() < 15 {
            None
        } else {
            match layout_of(n.skip(15)) {
                None => None,
                Some(layout) => Some(sends(EventView::LayoutChanged(layout))),
            }
        }
    } else if starts_with(n, "%paste-buffer-changed"@) {
        // %paste-buffer-changed name
        match text_field(n, 22) {
            None => None,
            Some(Err(error)) => Some(fails(error)),
            Some(Ok(name)) => Some(sends(EventView::PasteBufferChanged(name))),
        }
    } else if starts_with(n, "%session-changed"@) {
        // %session-changed $1 name
        match numbered_text(n, 18) {
            None => None,
            Some(Err(error)) => Some(fails(error)),
            Some(Ok((id, name))) => Some(sends(EventView::SessionChanged(id, name))),
        }
    } else if starts_with(n, "%window-renamed"@) {
        // %window-renamed @1 name
        match numbered_text(n, 17) {
            None => None,
            Some(Err(error)) => Some(fails(error)),
            Some(Ok((tab_id, name))) => Some(sends(EventView::TabRenamed(tab_id, name))),
        }
    } else if starts_with(n, "%exit"@) {
        // %exit reason
        match text_field(n, 5) {
            None => None,
            Some(Err(error)) => Some(fails(error)),
            Some(Ok(_)) => Some(
                Outcome {
                    effects: seq![EffectView::Send(EventView::Exit)],
                    error: Some(TmuxError::ExitEventReceived),
                },
            ),
        }
    } else if starts_with(n, "%client-session-changed"@) {
        Some(no_outcome())
    } else if valid_utf8(n) {
        Some(no_outcome())
    } else {
        Some(fails(TmuxError::ErrorParsingUTF8))
    }
}

fn read_number_pair(n: &[u8], at: usize) -> (r: Option<(u32, u32)>)
    ensures
        r == number_pair(n@, at as int),
{
    let (first, end) = match read_number_field(n, at) {
        Some(found) => found,
        None => return None,
    };
    if n.len() - end < 2 {
        return None;
    }
    match read_number_field(n, end + 2) {
        Some((second, _)) => Some((first, second)),
        None => None,
    }
}

fn read_numbered_text(n: &[u8], at: usize) -> (r: Option<Result<(u32, String), TmuxError>>)
    ensures
        match r {
            None => numbered_text(n@, at as int) is None,
            Some(Ok((id, text))) => numbered_text(n@, at as int) == Some(
                Ok::<(u32, Seq<char>), TmuxError>((id, text@)),
            ),
            Some(Err(err)) => numbered_text(n@, at as int) == Some(
                Err::<(u32, Seq<char>), TmuxError>(err),
            ),
        },
{
    let (id, end) = match read_number_field(n, at) {
        Some(found) => found,
        None => return None,
    };
    if end == n.len() {
        return None;
    }
    match read_text_field(n, end + 1) {
        None => None,
        Some(Err(err)) => Some(Err(err)),
        Some(Ok(text)) => Some(Ok((id, text))),
    }
}

/// The event that a notification reports, with the error that it ends the
/// connection with.
enum Notice {
    Event(TmuxEvent),
    Nothing,
    Fails(TmuxError),
    Exit,
}

spec fn notice_outcome(notice: Notice) -> Outcome {
    match notice {
        Notice::Event(event) => sends(event@),
        Notice::Nothing => no_outcome(),
        Notice::Fails(error) => fails(error),
        Notice::Exit => Outcome {
            effects: seq![EffectView::Send(EventView::Exit)],
            error: Some(TmuxError::ExitEventReceived),
        },
    }
}

fn read_notification(n: &[u8]) -> (r: Option<Notice>)
    ensures
        r is None <==> notification(n@) is None,
        r matches Some(notice) ==> notification(n@) == Some(notice_outcome(notice)),
{
    if buffer_starts_with(n, "%output") {
        match read_number_field(n, 9) {
            None => None,
            Some((pane_id, end)) => {
                if end == n.len() {
                    return None;
                }
                let rest = slice_subrange(n, end + 1, n.len());
                assert(rest@ =~= n@.skip(end + 1));
                let mut output: Vec<u8> = Vec::new();
                if !unescape_into(rest, &mut output) {
                    return None;
                }
                assert(output@ =~= unescaped(rest@));
                Some(Notice::Event(TmuxEvent::Output(pane_id, output, false)))
            },
        }
    } else if buffer_starts_with(n, "%window-pane-changed") {
        match read_number_pair(n, 22) {
            None => None,
            Some((tab_id, pane_id)) => Some(
                Notice::Event(TmuxEvent::PaneFocusChanged(tab_id, pane_id)),
            ),
        }
    } else if buffer_starts_with(n, "%window-add") {
        match read_number_field(n, 13) {
            None => None,
            Some((tab_id, _)) => Some(Notice::Event(TmuxEvent::WindowAdded(tab_id))),
        }
    } else if buffer_starts_with(n, "%session-window-changed") {
        match read_number_pair(n, 25) {
            None => None,
            Some((_, tab_id)) => Some(Notice::Event(TmuxEvent::TabFocusChanged(tab_id))),
        }
    } else if buffer_starts_with(n, "%unlinked-window-close") {
        match read_number_field(n, 24) {
            None => None,
            Some((tab_id, _)) => Some(Notice::Event(TmuxEvent::TabClosed(tab_id))),
        }
    } else if buffer_starts_with(n, "%window-close") {
        match read_number_field(n, 15) {
            None => None,
            Some((tab_id, _)) => Some(Notice::Event(TmuxEvent::TabClosed(tab_id))),
        }
    } else if buffer_starts_with(n, "%layout-change") {
        if n.len() < 15 {
            return None;
        }
        let rest = slice_subrange(n, 15, n.len());
        assert(rest@ =~= n@.skip(15));
        match parse_tmux_layout(rest) {
            None => None,
            Some(layout) => Some(Notice::Event(TmuxEvent::LayoutChanged(layout))),
        }
    } else if buffer_starts_with(n, "%paste-buffer-changed") {
        match read_text_field(n, 22) {
            None => None,
            Some(Err(err)) => Some(Notice::Fails(err)),
            Some(Ok(name)) => Some(Notice::Event(TmuxEvent::PasteBufferChanged(name))),
        }
    } else if buffer_starts_with(n, "%session-changed") {
        match read_numbered_text(n, 18) {
            None => None,
            Some(Err(err)) => Some(Notice::Fails(err)),
            Some(Ok((id, name))) => Some(Notice::Event(TmuxEvent::SessionChanged(id, name))),
        }
    } else if buffer_starts_with(n, "%window-renamed") {
        match read_numbered_text(n, 17) {
            None => None,
            Some(Err(err)) => Some(Notice::Fails(err)),
            Some(Ok((tab_id, name))) => Some(Notice::Event(TmuxEvent::TabRenamed(tab_id, name))),
        }
    } else if buffer_starts_with(n, "%exit") {
        match read_text_field(n, 5) {
            None => None,
            Some(Err(err)) => Some(Notice::Fails(err)),
            Some(Ok(_)) => Some(Notice::Exit),
        }
    } else if buffer_starts_with(n, "%client-session-changed") {
        Some(Notice::Nothing)
    } else {
        match parse_utf8(n) {
            Ok(_) => Some(Notice::Nothing),
            Err(err) => Some(Notice::Fails(err)),
        }
    }
}

// ---------------------------------------------------------------------------
// The parser
// ---------------------------------------------------------------------------

/// A parsed line: what it brings and the state behind it.
pub struct LineRun {
    pub state: ParserView,
    pub outcome: Outcome,
}

/// The state behind a reply.
pub open spec fn idle(state: ParserView) -> ParserView {
    ParserView { command: None, lines: Seq::empty(), ..state }
}

/// What a line brings. `None` where it is malformed.
///
/// Everything before the first `%begin` is discarded. A line that does not
/// start with `%` belongs to the reply to the current command, and is held
/// back until the reply ends; without a current command it is ignored.
#[verifier::opaque]
pub open spec fn line_run(state: ParserView, raw: Seq<u8>) -> Option<LineRun> {
    let line = without_cr(raw);
    if !state.preamble_done {
        if contains_text(line, encode_utf8("%begin"@)) {
            Some(
                LineRun {
                    state: ParserView {
                        command: None,
                        lines: Seq::empty(),
                        preamble_done: true,
                        awaiting: true,
                    },
                    outcome: no_outcome(),
                },
            )
        } else {
            Some(LineRun { state, outcome: no_outcome() })
        }
    } else if line.len() == 0 || line[0] != 37 {
        if state.command is Some {
            Some(
                LineRun {
                    state: ParserView { lines: state.lines.push(line), ..state },
                    outcome: no_outcome(),
                },
            )
        } else {
            Some(LineRun { state, outcome: no_outcome() })
        }
    } else if starts_with(line, "%begin"@) {
        Some(
            LineRun {
                state: ParserView { awaiting: true, ..idle(state) },
                outcome: no_outcome(),
            },
        )
    } else if starts_with(line, "%end"@) {
        match state.command {
            None => Some(LineRun { state: idle(state), outcome: no_outcome() }),
            Some(command) => match reply(command, state.lines) {
                None => None,
                Some(outcome) => Some(
                    LineRun {
                        state: if outcome.error is Some {
                            state
                        } else {
                            idle(state)
                        },
                        outcome,
                    },
                ),
            },
        }
    } else if starts_with(line, "%error"@) {
        Some(
            LineRun {
                state: idle(state),
                outcome: Outcome {
                    effects: seq![EffectView::CommandFailed(state.command, state.lines)],
                    error: None,
                },
            },
        )
    } else {
        match notification(line) {
            None => None,
            Some(outcome) => Some(LineRun { state, outcome }),
        }
    }
}

/// What a call that handled one line says of it.
pub open spec fn line_handled(
    before: ParserView,
    after: ParserView,
    raw: Seq<u8>,
    old_effects: Seq<EffectView>,
    new_effects: Seq<EffectView>,
    r: Result<usize, TmuxError>,
) -> bool {
    &&& line_run(before, raw) is Some
    &&& after == line_run(before, raw)->Some_0.state
    &&& new_effects == old_effects + line_run(before, raw)->Some_0.outcome.effects
    &&& match r {
        Ok(n) => n == raw.len() && line_run(before, raw)->Some_0.outcome.error is None,
        Err(error) => line_run(before, raw)->Some_0.outcome.error == Some(error),
    }
}

/// Handles one line of Tmux output, without the line feed that ends it.
/// `None` where the line is malformed: the state and the effects are then
/// unchanged.
pub fn try_parse_line(
    state: &mut TmuxParserState,
    buffer: &[u8],
    effects: &mut Vec<ParserEffect>,
) -> (r: Option<Result<usize, TmuxError>>)
    ensures
        r is None <==> line_run(old(state)@, buffer@) is None,
        r is None ==> *final(state) == *old(state) && final(effects)@ == old(effects)@,
        r matches Some(result) ==> line_handled(
            old(state)@,
            final(state)@,
            buffer@,
            effects_view(old(effects)@),
            effects_view(final(effects)@),
            result,
        ),
{
    reveal(line_run);
    let read: usize = buffer.len();
    let ghost before = effects_view(effects@);
    assert(before + Seq::<EffectView>::empty() =~= before);
    let line = if read > 0 && buffer[read - 1] == 13 {
        let line = slice_subrange(buffer, 0, read - 1);
        assert(line@ =~= buffer@.drop_last());
        line
    } else {
        buffer
    };
    assert(line@ == without_cr(buffer@));
    if !state.preamble_done {
        if line_contains(line, "%begin") {
            state.current_command = None;
            state.block_lines = Vec::new();
            state.preamble_done = true;
            state.awaiting_command = true;
            assert(state@.lines =~= Seq::empty());
        }
        return Some(Ok(read));
    }
    if line.len() == 0 || line[0] != 37 {
        if state.current_command.is_some() {
            let held = slice_to_vec(line);
            state.block_lines.push(held);
            assert(state@.lines =~= old(state)@.lines.push(line@));
        }
        return Some(Ok(read));
    }
    if buffer_starts_with(line, "%begin") {
        state.current_command = None;
        state.block_lines = Vec::new();
        state.awaiting_command = true;
        assert(state@.lines =~= Seq::empty());
        return Some(Ok(read));
    }
    if buffer_starts_with(line, "%end") {
        if let Some(command) = state.current_command {
            let mut brought: Vec<ParserEffect> = Vec::new();
            let result = finish_reply(command, &state.block_lines, &mut brought);
            assert(effects_view(Seq::<ParserEffect>::empty()) =~= Seq::empty());
            proof {
                if let Some(outcome) = reply(command, state@.lines) {
                    assert(effects_view(brought@) =~= outcome.effects);
                    assert(effects_view(effects@ + brought@) =~= before + outcome.effects);
                }
            }
            match result {
                None => return None,
                Some(Err(err)) => {
                    effects.append(&mut brought);
                    return Some(Err(err));
                },
                Some(Ok(_)) => {
                    effects.append(&mut brought);
                },
            }
        }
        state.current_command = None;
        state.block_lines = Vec::new();
        assert(state@.lines =~= Seq::empty());
        return Some(Ok(read));
    }
    if buffer_starts_with(line, "%error") {
        let command = state.current_command;
        let mut lines: Vec<Vec<u8>> = Vec::new();
        lines.append(&mut state.block_lines);
        assert(lines@ =~= old(state).block_lines@);
        assert(state@.lines =~= Seq::empty());
        state.current_command = None;
        emit(effects, ParserEffect::CommandFailed(command, lines));
        return Some(Ok(read));
    }
    match read_notification(line) {
        None => None,
        Some(Notice::Event(event)) => {
            emit(effects, ParserEffect::Send(event));
            Some(Ok(read))
        },
        Some(Notice::Nothing) => Some(Ok(read)),
        Some(Notice::Fails(err)) => Some(Err(err)),
        Some(Notice::Exit) => {
            emit(effects, ParserEffect::Send(TmuxEvent::Exit));
            Some(Err(TmuxError::ExitEventReceived))
        },
    }
}

/// Handles one line of Tmux output, without the line feed that ends it, and
/// returns its length. The line is well-formed; `try_parse_line` takes any.
pub fn tmux_parse_line(
    state: &mut TmuxParserState,
    buffer: &[u8],
    effects: &mut Vec<ParserEffect>,
) -> (r: Result<usize, TmuxError>)
    requires
        line_run(old(state)@, buffer@) is Some,
    ensures
        line_handled(
            old(state)@,
            final(state)@,
            buffer@,
            effects_view(old(effects)@),
            effects_view(final(effects)@),
            r,
        ),
{
    match try_parse_line(state, buffer, effects) {
        Some(result) => result,
        None => Ok(0),
    }
}

// ---------------------------------------------------------------------------
// The stream
// ---------------------------------------------------------------------------

/// Why the parser returns.
#[derive(Clone, Copy, Debug, PartialEq, Eq, Structural)]
pub enum DataStep {
    /// Every complete line was handled
    NeedMore,
    /// A reply has begun: the command it answers has to be named first
    AwaitCommand,
    /// The next line is malformed
    Malformed,
}

/// Length of the first line of `data`, without the line feed.
pub open spec fn line_len(data: Seq<u8>) -> int
    decreases data.len(),
{
    if data.len() == 0 || data[0] == 10 {
        0
    } else {
        1 + line_len(data.skip(1))
    }
}

/// What the complete lines at the start of some data bring.
pub struct DataRun {
    pub state: ParserView,
    pub effects: Seq<EffectView>,
    /// Bytes of the lines that were handled
    pub consumed: int,
    pub stop: Result<DataStep, TmuxError>,
}

/// Handles line after line, until a command has to be named, a line is
/// malformed or fails, or no complete line is left.
pub open spec fn data_run(state: ParserView, data: Seq<u8>) -> DataRun
    decreases data.len(),
{
    let n = line_len(data);
    if state.awaiting {
        DataRun { state, effects: Seq::empty(), consumed: 0, stop: Ok(DataStep::AwaitCommand) }
    } else if !(0 <= n < data.len()) {
        DataRun { state, effects: Seq::empty(), consumed: 0, stop: Ok(DataStep::NeedMore) }
    } else {
        match line_run(state, data.take(n)) {
            None => DataRun {
                state,
                effects: Seq::empty(),
                consumed: 0,
                stop: Ok(DataStep::Malformed),
            },
            Some(run) => match run.outcome.error {
                Some(error) => DataRun {
                    state: run.state,
                    effects: run.outcome.effects,
                    consumed: 0,
                    stop: Err(error),
                },
                None => {
                    let rest = data_run(run.state, data.skip(n + 1));
                    DataRun {
                        state: rest.state,
                        effects: run.outcome.effects + rest.effects,
                        consumed: n + 1 + rest.consumed,
                        stop: rest.stop,
                    }
                },
            },
        }
    }
}

proof fn lemma_line_len(data: Seq<u8>, n: int)
    requires
        0 <= n <= data.len(),
        forall|i: int| 0 <= i < n ==> #[trigger] data[i] != 10,
        n == data.len() || data[n] == 10,
    ensures
        line_len(data) == n,
    decreases n,
{
    if n > 0 {
        assert(data[0] != 10);
        assert forall|i: int| 0 <= i < n - 1 implies #[trigger] data.skip(1)[i] != 10 by {
            assert(data[i + 1] != 10);
        }
        lemma_line_len(data.skip(1), n - 1);
    }
}

fn find_line_end(data: &[u8], from: usize) -> (end: usize)
    requires
        from <= data@.len(),
    ensures
        from <= end <= data@.len(),
        end - from == line_len(data@.skip(from as int)),
{
    let mut i: usize = from;
    while i < data.len() && data[i] != 10
        invariant
            from <= i <= data@.len(),
            forall|j: int| from <= j < i ==> #[trigger] data@[j] != 10,
        ensures
            i == data@.len() || data@[i as int] == 10,
        decreases data@.len() - i,
    {
        i += 1;
    }
    proof {
        let rest = data@.skip(from as int);
        assert forall|j: int| 0 <= j < i - from implies #[trigger] rest[j] != 10 by {
            assert(data@[from + j] != 10);
        }
        lemma_line_len(rest, i - from);
    }
    i
}

/// Handles the complete lines at the start of `data`, and returns why it
/// stopped and how many bytes the handled lines take.
pub fn parse_lines(
    state: &mut TmuxParserState,
    data: &[u8],
    effects: &mut Vec<ParserEffect>,
) -> (r: (Result<DataStep, TmuxError>, usize))
    ensures
        final(state)@ == data_run(old(state)@, data@).state,
        effects_view(final(effects)@) == effects_view(old(effects)@) + data_run(
            old(state)@,
            data@,
        ).effects,
        r.0 == data_run(old(state)@, data@).stop,
        r.1 == data_run(old(state)@, data@).consumed,
        r.1 <= data@.len(),
{
    let ghost whole = data_run(state@, data@);
    let ghost start = effects_view(effects@);
    let mut at: usize = 0;
    let ghost mut done: Seq<EffectView> = Seq::empty();
    proof {
        assert(data@.skip(0) =~= data@);
        assert(start + done =~= start);
        assert(done + whole.effects =~= whole.effects);
    }
    loop
        invariant
            at <= data@.len(),
            effects_view(effects@) == start + done,
            start == effects_view(old(effects)@),
            whole == data_run(old(state)@, data@),
            whole.state == data_run(state@, data@.skip(at as int)).state,
            whole.stop == data_run(state@, data@.skip(at as int)).stop,
            whole.consumed == at + data_run(state@, data@.skip(at as int)).consumed,
            whole.effects == done + data_run(state@, data@.skip(at as int)).effects,
        decreases data@.len() - at,
    {
        let ghost rest = data@.skip(at as int);
        let ghost before = state@;
        if state.awaiting_command {
            assert(done + Seq::<EffectView>::empty() =~= done);
            return (Ok(DataStep::AwaitCommand), at);
        }
        let end: usize = find_line_end(data, at);
        if end == data.len() {
            assert(done + Seq::<EffectView>::empty() =~= done);
            return (Ok(DataStep::NeedMore), at);
        }
        let line = slice_subrange(data, at, end);
        assert(line@ =~= rest.take(end - at));
        match try_parse_line(state, line, effects) {
            None => {
                assert(done + Seq::<EffectView>::empty() =~= done);
                return (Ok(DataStep::Malformed), at);
            },
            Some(Err(err)) => {
                proof {
                    let run = line_run(before, line@)->Some_0;
                    assert(start + done + run.outcome.effects =~= start + (done
                        + run.outcome.effects));
                }
                return (Err(err), at);
            },
            Some(Ok(_)) => {},
        }
        proof {
            let run = line_run(before, line@)->Some_0;
            let next = done + run.outcome.effects;
            assert(rest.skip(end - at + 1) =~= data@.skip(end + 1));
            assert(start + done + run.outcome.effects =~= start + next);
            let tail = data_run(run.state, data@.skip(end + 1));
            assert(done + (run.outcome.effects + tail.effects) =~= next + tail.effects);
            done = next;
        }
        at = end + 1;
    }
}

/// Handles the complete lines that the ring holds and drops them from it. On
/// an error, nothing is dropped.
pub fn tmux_parse_data(
    state: &mut TmuxParserState,
    ring_buffer: &mut Ring,
    effects: &mut Vec<ParserEffect>,
) -> (r: Result<DataStep, TmuxError>)
    ensures
        ({
            let unread = ring_unread(*old(ring_buffer));
            let run = data_run(old(state)@, unread);
            &&& final(state)@ == run.state
            &&& effects_view(final(effects)@) == effects_view(old(effects)@) + run.effects
            &&& r == run.stop
            &&& r is Err ==> *final(ring_buffer) == *old(ring_buffer)
            &&& r is Ok ==> ring_unread(*final(ring_buffer)) == unread.skip(run.consumed)
                && ring_free(*final(ring_buffer)).len() == ring_free(*old(ring_buffer)).len()
                + run.consumed
        }),
{
    let buffer = as_read_slice(ring_buffer, read_len(ring_buffer));
    let (stop, consumed) = parse_lines(state, buffer, effects);
    if stop.is_ok() {
        consume(ring_buffer, consumed);
    }
    stop
}

// ---------------------------------------------------------------------------
// Laws
// ---------------------------------------------------------------------------

proof fn lemma_line_len_bounds(data: Seq<u8>)
    ensures
        0 <= line_len(data) <= data.len(),
        line_len(data) < data.len() ==> data[line_len(data)] == 10,
        forall|i: int| 0 <= i < line_len(data) ==> #[trigger] data[i] != 10,
    decreases data.len(),
{
    if data.len() > 0 && data[0] != 10 {
        lemma_line_len_bounds(data.skip(1));
        assert forall|i: int| 0 <= i < line_len(data) implies #[trigger] data[i] != 10 by {
            if i > 0 {
                assert(data[i] == data.skip(1)[i - 1]);
            }
        }
    }
}

/// What is consumed lies within the data.
pub proof fn lemma_consumed(state: ParserView, data: Seq<u8>)
    ensures
        0 <= data_run(state, data).consumed <= data.len(),
    decreases data.len(),
{
    lemma_line_len_bounds(data);
    let n = line_len(data);
    if !state.awaiting && n < data.len() {
        if let Some(run) = line_run(state, data.take(n)) {
            lemma_consumed(run.state, data.skip(n + 1));
        }
    }
}

/// A stream may be cut anywhere: parsing what has arrived, and what arrives
/// later behind the bytes that were left over, brings what parsing the whole
/// stream at once brings.
pub proof fn law_stream_cut_anywhere(state: ParserView, first: Seq<u8>, second: Seq<u8>)
    requires
        data_run(state, first).stop == Ok::<DataStep, TmuxError>(DataStep::NeedMore),
    ensures
        ({
            let a = data_run(state, first);
            let b = data_run(a.state, first.skip(a.consumed) + second);
            let whole = data_run(state, first + second);
            &&& whole.state == b.state
            &&& whole.effects == a.effects + b.effects
            &&& whole.stop == b.stop
            &&& whole.consumed == a.consumed + b.consumed
        }),
    decreases first.len(),
{
    let n = line_len(first);
    let all = first + second;
    lemma_line_len_bounds(first);
    if n < first.len() {
        lemma_line_len(all, n);
        assert(all.take(n) =~= first.take(n));
        let run = line_run(state, first.take(n))->Some_0;
        let rest = first.skip(n + 1);
        law_stream_cut_anywhere(run.state, rest, second);
        assert(all.skip(n + 1) =~= rest + second);
        let a = data_run(run.state, rest);
        lemma_consumed(run.state, rest);
        assert(rest.skip(a.consumed) =~= first.skip(n + 1 + a.consumed));
        let b = data_run(a.state, rest.skip(a.consumed) + second);
        assert(run.outcome.effects + (a.effects + b.effects) =~= run.outcome.effects + a.effects
            + b.effects);
    } else {
        assert(first.skip(0) =~= first);
        let b = data_run(state, all);
        assert(Seq::<EffectView>::empty() + b.effects =~= b.effects);
    }
}

/// Nothing that arrives before the first `%begin` has any effect.
pub proof fn law_preamble_is_discarded(state: ParserView, raw: Seq<u8>)
    requires
        !state.preamble_done,
        !contains_text(without_cr(raw), encode_utf8("%begin"@)),
    ensures
        line_run(state, raw) == Some(LineRun { state, outcome: no_outcome() }),
{
    reveal(line_run);
}

proof fn lemma_line_ending(state: ParserView, line: Seq<u8>)
    requires
        line.len() > 0 ==> line.last() != 13,
    ensures
        line_run(state, line.push(13)) == line_run(state, line),
{
    reveal(line_run);
    assert(line.push(13).drop_last() =~= line);
}

/// The lines, each with the same ending.
pub open spec fn ended_lines(lines: Seq<Seq<u8>>, ending: Seq<u8>) -> Seq<u8>
    decreases lines.len(),
{
    if lines.len() == 0 {
        Seq::empty()
    } else {
        lines[0] + ending + ended_lines(lines.skip(1), ending)
    }
}

/// Whether the bytes can be the text of a line: they hold no line feed, and
/// do not end in a carriage return.
pub open spec fn line_text(line: Seq<u8>) -> bool {
    &&& !line.contains(10)
    &&& line.len() > 0 ==> line.last() != 13
}

/// What handling the first of some lines leads to.
proof fn lemma_first_line(
    state: ParserView,
    lines: Seq<Seq<u8>>,
    ending: Seq<u8>,
    unfinished: Seq<u8>,
)
    requires
        lines.len() > 0,
        line_text(lines[0]),
        ending == seq![10u8] || ending == seq![13u8, 10],
        !state.awaiting,
    ensures
        ({
            let data = ended_lines(lines, ending) + unfinished;
            let n = line_len(data);
            &&& 0 <= n < data.len()
            &&& n + 1 == (lines[0] + ending).len()
            &&& line_run(state, data.take(n)) == line_run(state, lines[0])
            &&& data.skip(n + 1) == ended_lines(lines.skip(1), ending) + unfinished
        }),
{
    let line = lines[0];
    let data = ended_lines(lines, ending) + unfinished;
    let n = line.len() + ending.len() - 1;
    assert forall|i: int| 0 <= i < n implies #[trigger] data[i] != 10 by {
        if i < line.len() {
            assert(data[i] == line[i]);
            assert(line.contains(line[i]));
        } else {
            assert(data[i] == ending[i - line.len()]);
        }
    }
    assert(data[n] == ending[ending.len() - 1]);
    lemma_line_len(data, n);
    if ending.len() == 1 {
        assert(data.take(n) =~= line);
    } else {
        assert(data.take(n) =~= line.push(13));
        lemma_line_ending(state, line);
    }
    assert(data.skip(n + 1) =~= ended_lines(lines.skip(1), ending) + unfinished);
}

/// The number of lines that are handled, whatever ends them.
proof fn lemma_line_endings(
    state: ParserView,
    lines: Seq<Seq<u8>>,
    unfinished: Seq<u8>,
) -> (handled: int)
    requires
        forall|i: int| 0 <= i < lines.len() ==> line_text(#[trigger] lines[i]),
        !unfinished.contains(10),
    ensures
        ({
            let plain = data_run(state, ended_lines(lines, seq![10u8]) + unfinished);
            let other = data_run(state, ended_lines(lines, seq![13u8, 10]) + unfinished);
            &&& other.state == plain.state
            &&& other.effects == plain.effects
            &&& other.stop == plain.stop
            &&& 0 <= handled <= lines.len()
            &&& plain.consumed == ended_lines(lines.take(handled), seq![10u8]).len()
            &&& other.consumed == ended_lines(lines.take(handled), seq![13u8, 10]).len()
        }),
    decreases lines.len(),
{
    let lf = seq![10u8];
    let crlf = seq![13u8, 10];
    assert(lines.take(0) =~= Seq::empty());
    if state.awaiting {
        0
    } else if lines.len() == 0 {
        assert(ended_lines(lines, lf) + unfinished =~= unfinished);
        assert(ended_lines(lines, crlf) + unfinished =~= unfinished);
        assert forall|i: int| 0 <= i < unfinished.len() implies #[trigger] unfinished[i] != 10 by {
            assert(unfinished.contains(unfinished[i]));
        }
        lemma_line_len(unfinished, unfinished.len() as int);
        0
    } else {
        assert(line_text(lines[0]));
        lemma_first_line(state, lines, lf, unfinished);
        lemma_first_line(state, lines, crlf, unfinished);
        match line_run(state, lines[0]) {
            None => 0,
            Some(run) => if run.outcome.error is Some {
                0
            } else {
                let rest = lines.skip(1);
                assert forall|i: int| 0 <= i < rest.len() implies line_text(#[trigger] rest[i]) by {
                    assert(line_text(lines[i + 1]));
                }
                let handled = lemma_line_endings(run.state, rest, unfinished);
                let front = lines.take(handled + 1);
                assert(front.skip(1) =~= rest.take(handled));
                assert(front[0] == lines[0]);
                handled + 1
            },
        }
    }
}

/// A stream means the same whether its lines end in a line feed alone or in a
/// carriage return and a line feed: the same comes of it, and as many lines
/// are handled.
pub proof fn law_line_endings(state: ParserView, lines: Seq<Seq<u8>>, unfinished: Seq<u8>)
    requires
        forall|i: int| 0 <= i < lines.len() ==> line_text(#[trigger] lines[i]),
        !unfinished.contains(10),
    ensures
        ({
            let plain = data_run(state, ended_lines(lines, seq![10u8]) + unfinished);
            let other = data_run(state, ended_lines(lines, seq![13u8, 10]) + unfinished);
            &&& other.state == plain.state
            &&& other.effects == plain.effects
            &&& other.stop == plain.stop
            &&& exists|handled: int|
                {
                    let front = #[trigger] lines.take(handled);
                    &&& 0 <= handled <= lines.len()
                    &&& plain.consumed == ended_lines(front, seq![10u8]).len()
                    &&& other.consumed == ended_lines(front, seq![13u8, 10]).len()
                }
        }),
{
    let handled = lemma_line_endings(state, lines, unfinished);
    let front = lines.take(handled);
    assert(front.len() == handled);
}

/// A line that does not start with `%` is held back: it has no effect until
/// the reply that it belongs to ends.
pub proof fn law_reply_lines_are_held_back(state: ParserView, raw: Seq<u8>)
    requires
        state.preamble_done,
        without_cr(raw).len() == 0 || without_cr(raw)[0] != 37,
    ensures
        line_run(state, raw) is Some,
        line_run(state, raw)->Some_0.outcome == no_outcome(),
        state.command is Some ==> line_run(state, raw)->Some_0.state == (ParserView {
            lines: state.lines.push(without_cr(raw)),
            ..state
        }),
        state.command is None ==> line_run(state, raw)->Some_0.state == state,
{
    reveal(line_run);
}

/// What Tmux writes about a command that failed is an error message, never
/// the command's result: it becomes no event.
pub proof fn law_failed_commands_bring_no_events(state: ParserView, raw: Seq<u8>)
    requires
        state.preamble_done,
        starts_with(without_cr(raw), "%error"@),
    ensures
        line_run(state, raw) == Some(
            LineRun {
                state: idle(state),
                outcome: Outcome {
                    effects: seq![EffectView::CommandFailed(state.command, state.lines)],
                    error: None,
                },
            },
        ),
{
    reveal(line_run);
    reveal_strlit("%error");
    reveal_strlit("%begin");
    reveal_strlit("%end");
    let line = without_cr(raw);
    is_ascii_chars_encode_utf8("%error"@);
    is_ascii_chars_encode_utf8("%begin"@);
    is_ascii_chars_encode_utf8("%end"@);
    let error = encode_utf8("%error"@);
    assert("%error"@[0] == '%' && "%error"@[2] == 'r');
    assert("%begin"@[1] == 'b');
    assert("%end"@[2] == 'n');
    assert(line.subrange(0, 6)[0] == error[0]);
    assert(line.subrange(0, 6)[1] == error[1]);
    assert(line.subrange(0, 6)[2] == error[2]);
    if starts_with(line, "%begin"@) {
        assert(line.subrange(0, 6)[1] == encode_utf8("%begin"@)[1]);
    }
    if starts_with(line, "%end"@) {
        assert(line.subrange(0, 4)[2] == encode_utf8("%end"@)[2]);
    }
}

/// Bytes that hold no backslash stand for themselves, whatever their values.
pub proof fn law_plain_bytes_stand_for_themselves(s: Seq<u8>)
    requires
        !s.contains(92),
    ensures
        escapes_ok(s),
        unescaped(s) == s,
    decreases s.len(),
{
    if s.len() > 0 {
        assert(s.contains(s[0]));
        let rest = s.skip(1);
        if rest.contains(92) {
            let i = choose|i: int| 0 <= i < rest.len() && rest[i] == 92;
            assert(s[i + 1] == 92);
        }
        law_plain_bytes_stand_for_themselves(rest);
        assert(seq![s[0]] + rest =~= s);
    } else {
        assert(unescaped(s) =~= s);
    }
}

/// An escape stands for one byte, wherever it is met: a backslash and the
/// three octal digits of a byte for that byte, two backslashes for one.
pub proof fn law_escapes_stand_for_one_byte(b: u8, rest: Seq<u8>)
    ensures
        ({
            let digits = seq![
                92u8,
                (48 + b / 64) as u8,
                (48 + b / 8 % 8) as u8,
                (48 + b % 8) as u8,
            ];
            &&& escapes_ok(digits + rest) == escapes_ok(rest)
            &&& unescaped(digits + rest) == seq![b] + unescaped(rest)
        }),
        escapes_ok(seq![92u8, 92] + rest) == escapes_ok(rest),
        unescaped(seq![92u8, 92] + rest) == seq![92u8] + unescaped(rest),
{
    let digits = seq![92u8, (48 + b / 64) as u8, (48 + b / 8 % 8) as u8, (48 + b % 8) as u8];
    assert((digits + rest).skip(4) =~= rest);
    assert((digits + rest)[1] == 48 + b / 64);
    assert((digits + rest)[2] == 48 + b / 8 % 8);
    assert((digits + rest)[3] == 48 + b % 8);
    assert((seq![92u8, 92] + rest).skip(2) =~= rest);
}

/// What is written behind well-formed output means the same as alone.
pub proof fn law_escapes_end(a: Seq<u8>, b: Seq<u8>)
    requires
        escapes_ok(a),
    ensures
        escapes_ok(a + b) == escapes_ok(b),
        unescaped(a + b) == unescaped(a) + unescaped(b),
    decreases a.len(),
{
    let all = a + b;
    if a.len() == 0 {
        assert(all =~= b);
        assert(unescaped(a) + unescaped(b) =~= unescaped(b));
    } else {
        let n: int = if a[0] != 92 {
            1
        } else if a[1] == 92 {
            2
        } else {
            4
        };
        assert(all.skip(n) =~= a.skip(n) + b);
        law_escapes_end(a.skip(n), b);
        assert(unescaped(all) =~= unescaped(a) + unescaped(b));
    }
}

/// The bytes that some effects show on the screen of a pane, one behind the
/// other.
pub open spec fn shown(effects: Seq<EffectView>, pane_id: u32) -> Seq<u8>
    decreases effects.len(),
{
    if effects.len() == 0 {
        Seq::empty()
    } else {
        shown(effects.drop_last(), pane_id) + match effects.last() {
            EffectView::Send(EventView::Output(id, bytes, true)) => if id == pane_id {
                bytes
            } else {
                Seq::empty()
            },
            _ => Seq::empty(),
        }
    }
}

/// The non-empty ones of some lines.
pub open spec fn with_content(lines: Seq<Seq<u8>>) -> Seq<Seq<u8>> {
    lines.filter(|line: Seq<u8>| line.len() > 0)
}

/// The lines with their escapes resolved, each behind the first one in a row
/// of its own.
pub open spec fn rows(lines: Seq<Seq<u8>>) -> Seq<u8>
    decreases lines.len(),
{
    if lines.len() == 0 {
        Seq::empty()
    } else if lines.len() == 1 {
        unescaped(lines[0])
    } else {
        rows(lines.drop_last()) + seq![13u8, 10u8] + unescaped(lines.last())
    }
}

proof fn lemma_with_content(lines: Seq<Seq<u8>>)
    requires
        lines.len() > 0,
    ensures
        with_content(lines) == (if lines.last().len() > 0 {
            with_content(lines.drop_last()).push(lines.last())
        } else {
            with_content(lines.drop_last())
        }),
        nonempty_lines(lines) == with_content(lines).len(),
    decreases lines.len(),
{
    reveal(Seq::filter);
    reveal_with_fuel(nonempty_lines, 2);
    if lines.len() > 1 {
        lemma_with_content(lines.drop_last());
    } else {
        assert(lines.drop_last() =~= Seq::empty());
        assert(with_content(lines.drop_last()) =~= Seq::empty());
    }
}

proof fn lemma_shown_concat(a: Seq<EffectView>, b: Seq<EffectView>, pane_id: u32)
    ensures
        shown(a + b, pane_id) == shown(a, pane_id) + shown(b, pane_id),
    decreases b.len(),
{
    if b.len() == 0 {
        assert(a + b =~= a);
        assert(shown(a, pane_id) + shown(b, pane_id) =~= shown(a, pane_id));
    } else {
        assert((a + b).drop_last() =~= a + b.drop_last());
        lemma_shown_concat(a, b.drop_last(), pane_id);
        assert(shown(a + b, pane_id) =~= shown(a, pane_id) + shown(b, pane_id));
    }
}

proof fn lemma_captured_lines(pane_id: u32, lines: Seq<Seq<u8>>)
    requires
        forall|i: int| 0 <= i < lines.len() ==> escapes_ok(#[trigger] lines[i]),
    ensures
        reply_lines(TmuxCommand::InitialOutput(pane_id), lines) is Some,
        reply_lines(TmuxCommand::InitialOutput(pane_id), lines)->Some_0.error is None,
        shown(
            reply_lines(TmuxCommand::InitialOutput(pane_id), lines)->Some_0.effects,
            pane_id,
        ) == rows(with_content(lines)),
    decreases lines.len(),
{
    let command = TmuxCommand::InitialOutput(pane_id);
    reveal(Seq::filter);
    reveal_with_fuel(line_breaks, 2);
    if lines.len() > 0 {
        let front = lines.drop_last();
        assert forall|i: int| 0 <= i < front.len() implies escapes_ok(#[trigger] front[i]) by {
            assert(escapes_ok(lines[i]));
        }
        lemma_captured_lines(pane_id, front);
        lemma_with_content(lines);
        if front.len() > 0 {
            lemma_with_content(front);
        } else {
            assert(front =~= Seq::empty());
            assert(with_content(front) =~= Seq::empty());
        }
        assert(escapes_ok(lines.last()));
        if lines.last().len() > 0 {
            let before = reply_lines(command, front)->Some_0;
            let index = nonempty_lines(front);
            let this = reply_line(command, lines.last(), index)->Some_0;
            lemma_shown_concat(before.effects, this.effects, pane_id);
            reveal_with_fuel(shown, 2);
            assert(this.effects.drop_last() =~= Seq::empty());
            let kept = with_content(front);
            let all = kept.push(lines.last());
            assert(all.drop_last() =~= kept);
            assert(shown(this.effects, pane_id) =~= line_breaks((index > 0) as nat) + unescaped(
                lines.last(),
            ));
            assert(rows(all) =~= rows(kept) + shown(this.effects, pane_id));
        }
    }
}

/// A captured screen is restored row by row: what the reply to the request
/// for it sends to the pane, one behind the other, is its non-empty lines
/// with their escapes resolved, separated by line breaks. It goes to no other
/// pane, and the pane is told that it is complete.
pub proof fn law_captured_rows_are_restored(pane_id: u32, lines: Seq<Seq<u8>>)
    requires
        forall|i: int| 0 <= i < lines.len() ==> escapes_ok(#[trigger] lines[i]),
    ensures
        reply(TmuxCommand::InitialOutput(pane_id), lines) is Some,
        ({
            let outcome = reply(TmuxCommand::InitialOutput(pane_id), lines)->Some_0;
            &&& outcome.error is None
            &&& shown(outcome.effects, pane_id) == rows(with_content(lines))
            &&& outcome.effects.last() == EffectView::Send(
                EventView::InitialOutputFinished(pane_id),
            )
            &&& forall|other: u32|
                other != pane_id ==> #[trigger] shown(outcome.effects, other) == Seq::<u8>::empty()
        }),
{
    let command = TmuxCommand::InitialOutput(pane_id);
    lemma_captured_lines(pane_id, lines);
    let outcome = reply_lines(command, lines)->Some_0;
    let end = reply_end(command, lines);
    assert forall|id: u32| #[trigger] shown(end, id) == Seq::<u8>::empty() by {
        reveal_with_fuel(shown, 3);
        assert(end.drop_last().drop_last() =~= Seq::empty());
        assert(shown(end, id) =~= Seq::empty());
    }
    lemma_shown_concat(outcome.effects, end, pane_id);
    assert(shown(outcome.effects, pane_id) + Seq::<u8>::empty() =~= shown(
        outcome.effects,
        pane_id,
    ));
    assert forall|other: u32| other != pane_id implies #[trigger] shown(
        outcome.effects + end,
        other,
    ) == Seq::<u8>::empty() by {
        lemma_shown_concat(outcome.effects, end, other);
        lemma_captured_elsewhere(pane_id, lines, other);
        assert(Seq::<u8>::empty() + Seq::<u8>::empty() =~= Seq::<u8>::empty());
    }
}

proof fn lemma_captured_elsewhere(pane_id: u32, lines: Seq<Seq<u8>>, other: u32)
    requires
        other != pane_id,
        reply_lines(TmuxCommand::InitialOutput(pane_id), lines) is Some,
    ensures
        shown(
            reply_lines(TmuxCommand::InitialOutput(pane_id), lines)->Some_0.effects,
            other,
        ) == Seq::<u8>::empty(),
    decreases lines.len(),
{
    let command = TmuxCommand::InitialOutput(pane_id);
    if lines.len() > 0 {
        let front = lines.drop_last();
        lemma_captured_elsewhere(pane_id, front, other);
        let before = reply_lines(command, front)->Some_0;
        if !(before.error is Some || lines.last().len() == 0) {
            let this = reply_line(command, lines.last(), nonempty_lines(front))->Some_0;
            lemma_shown_concat(before.effects, this.effects, other);
            reveal_with_fuel(shown, 2);
            assert(this.effects.drop_last() =~= Seq::empty());
            assert(shown(this.effects, other) =~= Seq::empty());
            assert(Seq::<u8>::empty() + Seq::<u8>::empty() =~= Seq::<u8>::empty());
        }
    }
}

/// Lines are handled one behind the other: a complete line brings what it
/// brings, and what stands behind it is handled in the state that it leaves,
/// unless it is malformed or fails. While a command has to be named, nothing
/// is handled, and an incomplete line waits for its end.
pub proof fn law_lines_are_handled_in_order(state: ParserView, line: Seq<u8>, rest: Seq<u8>)
    requires
        !line.contains(10),
    ensures
        ({
            let run = data_run(state, line + seq![10u8] + rest);
            &&& state.awaiting ==> run.state == state && run.effects.len() == 0 && run.consumed == 0
                && run.stop == Ok::<DataStep, TmuxError>(DataStep::AwaitCommand)
            &&& !state.awaiting ==> match line_run(state, line) {
                None => run.state == state && run.effects.len() == 0 && run.consumed == 0
                    && run.stop == Ok::<DataStep, TmuxError>(DataStep::Malformed),
                Some(this) => match this.outcome.error {
                    Some(error) => run.state == this.state && run.effects == this.outcome.effects
                        && run.stop == Err::<DataStep, TmuxError>(error),
                    None => {
                        let later = data_run(this.state, rest);
                        &&& run.state == later.state
                        &&& run.effects == this.outcome.effects + later.effects
                        &&& run.consumed == line.len() + 1 + later.consumed
                        &&& run.stop == later.stop
                    },
                },
            }
        }),
        !state.awaiting ==> {
            let run = data_run(state, line);
            &&& run.state == state
            &&& run.effects.len() == 0
            &&& run.consumed == 0
            &&& run.stop == Ok::<DataStep, TmuxError>(DataStep::NeedMore)
        },
{
    let data = line + seq![10u8] + rest;
    let n = line.len() as int;
    assert forall|i: int| 0 <= i < n implies #[trigger] data[i] != 10 by {
        assert(data[i] == line[i]);
        assert(line.contains(line[i]));
    }
    assert(data[n] == 10);
    lemma_line_len(data, n);
    assert(data.take(n) =~= line);
    assert(data.skip(n + 1) =~= rest);
    assert forall|i: int| 0 <= i < n implies #[trigger] line[i] != 10 by {
        assert(line.contains(line[i]));
    }
    lemma_line_len(line, n);
}

/// Of the carriage returns at the end of a line, one belongs to its ending;
/// any other line stands as it is.
pub proof fn law_one_carriage_return_is_dropped(line: Seq<u8>)
    ensures
        without_cr(line.push(13)) == line,
        line.len() == 0 || line.last() != 13 ==> without_cr(line) == line,
{
    assert(line.push(13).drop_last() =~= line);
}

/// A reply that fails ends where it fails: what stands behind the failing line
/// brings nothing, and neither does the end of the reply.
pub proof fn law_failed_replies_end_there(
    command: TmuxCommand,
    lines: Seq<Seq<u8>>,
    more: Seq<Seq<u8>>,
)
    requires
        reply_lines(command, lines) is Some,
        reply_lines(command, lines)->Some_0.error is Some,
    ensures
        reply(command, lines + more) == reply_lines(command, lines),
{
    let all = lines + more;
    assert(all.take(lines.len() as int) =~= lines);
    lemma_reply_lines_stop(command, all, lines.len() as int);
}

/// Names and paths must be UTF-8: anything else ends the connection with an
/// error, and a field that is not there is malformed.
pub proof fn law_text_must_be_utf8(n: Seq<u8>, at: int)
    requires
        0 <= at,
    ensures
        at > n.len() ==> text_field(n, at) is None,
        at <= n.len() && !valid_utf8(n.skip(at)) ==> text_field(n, at) == Some(
            Err::<Seq<char>, TmuxError>(TmuxError::ErrorParsingUTF8),
        ),
        at <= n.len() && valid_utf8(n.skip(at)) ==> text_field(n, at) == Some(
            Ok::<Seq<char>, TmuxError>(decode_utf8(n.skip(at))),
        ),
{
}

/// A line break is a carriage return and a line feed, in this order.
pub proof fn law_line_breaks_return_the_carriage(n: nat, i: int)
    requires
        0 <= i < n,
    ensures
        line_breaks(n).len() == 2 * n,
        line_breaks(n)[2 * i] == 13,
        line_breaks(n)[2 * i + 1] == 10,
    decreases n,
{
    let front = line_breaks((n - 1) as nat);
    if n == 1 {
        reveal_with_fuel(line_breaks, 2);
    } else if i < n - 1 {
        law_line_breaks_return_the_carriage((n - 1) as nat, i);
    } else {
        law_line_breaks_return_the_carriage((n - 1) as nat, 0);
    }
    assert(front.len() == 2 * (n - 1));
}

/// A captured screen is complete once its reply is: behind its rows comes that
/// it is not scrolled, then that it is finished, and in front of that nothing
/// but output of that pane that belongs to the captured screen.
pub proof fn law_captured_screens_are_finished(pane_id: u32, lines: Seq<Seq<u8>>, i: int)
    requires
        forall|j: int| 0 <= j < lines.len() ==> escapes_ok(#[trigger] lines[j]),
    ensures
        ({
            let effects = reply(TmuxCommand::InitialOutput(pane_id), lines)->Some_0.effects;
            let n = effects.len() as int;
            &&& n == with_content(lines).len() + 2
            &&& effects[n - 2] == EffectView::Send(EventView::ScrollOutput(pane_id, 0))
            &&& effects[n - 1] == EffectView::Send(EventView::InitialOutputFinished(pane_id))
            &&& 0 <= i < n - 2 ==> (effects[i] matches EffectView::Send(
                EventView::Output(id, bytes, initial),
            ) && id == pane_id && initial)
        }),
{
    lemma_captured_effects(pane_id, lines, i);
    let command = TmuxCommand::InitialOutput(pane_id);
    let rows = reply_lines(command, lines)->Some_0.effects;
    let end = reply_end(command, lines);
    assert((rows + end).len() == rows.len() + 2);
}

proof fn lemma_captured_effects(pane_id: u32, lines: Seq<Seq<u8>>, i: int)
    requires
        forall|j: int| 0 <= j < lines.len() ==> escapes_ok(#[trigger] lines[j]),
    ensures
        ({
            let outcome = reply_lines(TmuxCommand::InitialOutput(pane_id), lines);
            &&& outcome is Some
            &&& outcome->Some_0.error is None
            &&& outcome->Some_0.effects.len() == with_content(lines).len()
            &&& 0 <= i < outcome->Some_0.effects.len() ==> (
            outcome->Some_0.effects[i] matches EffectView::Send(
                EventView::Output(id, bytes, initial),
            ) && id == pane_id && initial)
        }),
    decreases lines.len(),
{
    if lines.len() > 0 {
        let front = lines.drop_last();
        assert forall|j: int| 0 <= j < front.len() implies escapes_ok(#[trigger] front[j]) by {
            assert(front[j] == lines[j]);
        }
        assert(escapes_ok(lines[lines.len() - 1]));
        lemma_captured_effects(pane_id, front, i);
        lemma_with_content(lines);
    } else {
        assert(with_content(lines).len() == 0) by {
            reveal(Seq::filter);
        }
    }
}

} // verus!
