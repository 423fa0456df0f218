//! The window layout format of Tmux.
//!
//! A layout line reads `@window layout visible-layout flags [name]`. A layout
//! is a checksum of four characters and a cell, separated by a comma. A cell
//! is its bounds `WxH,X,Y`, then either `,pane` or its children in `{..}`
//! (side by side) or `[..]` (on top of each other), separated by commas.

use vstd::prelude::*;
use vstd::slice::slice_subrange;
use vstd::utf8::{
    decode_utf8, encode_utf8, encode_utf8_decode_utf8, encode_utf8_valid_utf8, valid_utf8,
};

use super::receive::{
    digit_run, digits_value, is_digit, leading_digits, leading_number, lemma_digit_run_facts,
    parse_utf8,
};
use super::{LayoutFlagSet, LayoutSync, LayoutView, Orientation, Rectangle, TmuxPane};

verus! {

/// The number at `at`, if there is one of at most `max`, and the position
/// behind it.
pub open spec fn number_at(s: Seq<u8>, at: int, max: int) -> Option<(int, int)> {
    if 0 <= at <= s.len() {
        let rest = s.skip(at);
        let value = leading_number(rest);
        if digit_run(rest) > 0 && value <= max {
            Some((value as int, at + digit_run(rest)))
        } else {
            None
        }
    } else {
        None
    }
}

/// As `number_at`, for a number that the byte `sep` ends; the position is
/// the one behind `sep`.
pub open spec fn number_then(s: Seq<u8>, at: int, max: int, sep: u8) -> Option<(int, int)> {
    match number_at(s, at, max) {
        Some((value, next)) => if next < s.len() && s[next] == sep {
            Some((value, next + 1))
        } else {
            None
        },
        None => None,
    }
}

/// The bounds at the start of `s`, and the position behind them.
#[verifier::opaque]
pub open spec fn bounds_at_start(s: Seq<u8>) -> Option<(Rectangle, int)> {
    match number_then(s, 0, i32::MAX as int, 120) {
        None => None,
        Some((width, a)) => match number_then(s, a, i32::MAX as int, 44) {
            None => None,
            Some((height, b)) => match number_then(s, b, i32::MAX as int, 44) {
                None => None,
                Some((x, c)) => match number_at(s, c, i32::MAX as int) {
                    None => None,
                    Some((y, d)) => Some(
                        (
                            Rectangle {
                                x: x as i32,
                                y: y as i32,
                                width: width as i32,
                                height: height as i32,
                            },
                            d,
                        ),
                    ),
                },
            },
        },
    }
}

/// How the children are placed that the byte `b` opens.
pub open spec fn opened_by(b: u8) -> Option<(Orientation, u8)> {
    if b == 123 {
        Some((Orientation::Horizontal, 125u8))
    } else if b == 91 {
        Some((Orientation::Vertical, 93u8))
    } else {
        None
    }
}

/// The cell at the start of `s`, and its length.
pub open spec fn cell_at_start(s: Seq<u8>) -> Option<(Seq<TmuxPane>, int)>
    decreases s.len(), 0int,
{
    match bounds_at_start(s) {
        None => None,
        Some((bounds, at)) => if !(0 <= at < s.len()) {
            None
        } else if s[at] == 44 {
            match number_at(s, at + 1, u32::MAX as int) {
                None => None,
                Some((id, next)) => Some((seq![TmuxPane::Terminal(id as u32, bounds)], next)),
            }
        } else {
            match opened_by(s[at]) {
                None => None,
                Some((orientation, close)) => match cells_at_start(s.skip(at + 1)) {
                    None => None,
                    Some((children, n)) => if at + 1 + n < s.len() && s[at + 1 + n] == close {
                        Some(
                            (
                                seq![TmuxPane::Container(orientation, bounds)] + children
                                    + seq![TmuxPane::Return],
                                at + 1 + n + 1,
                            ),
                        )
                    } else {
                        None
                    },
                },
            }
        },
    }
}

/// The cells, separated by commas, at the start of `s`, and their length.
pub open spec fn cells_at_start(s: Seq<u8>) -> Option<(Seq<TmuxPane>, int)>
    decreases s.len(), 1int,
{
    match cell_at_start(s) {
        None => None,
        Some((first, n)) => if 0 <= n < s.len() && s[n] == 44 {
            match cells_at_start(s.skip(n + 1)) {
                None => None,
                Some((others, m)) => Some((first + others, n + 1 + m)),
            }
        } else {
            Some((first, n))
        },
    }
}

/// The panes of a layout: a checksum of four characters, a comma, one cell.
pub open spec fn layout_panes(s: Seq<u8>) -> Option<Seq<TmuxPane>> {
    if s.len() > 5 && s[4] == 44 {
        match cell_at_start(s.skip(5)) {
            Some((panes, n)) => if n == s.len() - 5 {
                Some(panes)
            } else {
                None
            },
            None => None,
        }
    } else {
        None
    }
}

/// Length of the word at the start of `s`: what stands before the first
/// space.
pub open spec fn word_len(s: Seq<u8>) -> int
    decreases s.len(),
{
    if s.len() == 0 || s[0] == 32 {
        0
    } else {
        1 + word_len(s.skip(1))
    }
}

/// The properties that a flag word names.
pub open spec fn flags_of(word: Seq<u8>) -> LayoutFlagSet {
    LayoutFlagSet { has_focus: word.contains(42), is_zoomed: word.contains(90) }
}

/// The window name behind the flag word, where there is one.
pub open spec fn name_of(rest: Seq<u8>) -> Option<Option<Seq<char>>> {
    if rest.len() == 0 {
        Some(None)
    } else if valid_utf8(rest.skip(1)) {
        Some(Some(decode_utf8(rest.skip(1))))
    } else {
        None
    }
}

/// The layout that a layout line describes.
pub open spec fn layout_of(s: Seq<u8>) -> Option<LayoutView> {
    if s.len() == 0 || s[0] != 64 {
        None
    } else {
        match number_then(s, 1, u32::MAX as int, 32) {
            None => None,
            Some((tab_id, at)) => {
                let rest = s.skip(at);
                let a = word_len(rest);
                let b = word_len(rest.skip(a + 1));
                let c = word_len(rest.skip(a + 1 + b + 1));
                if a >= rest.len() || a + 1 + b >= rest.len() {
                    None
                } else {
                    match (
                        layout_panes(rest.take(a)),
                        layout_panes(rest.subrange(a + 1, a + 1 + b)),
                        name_of(rest.skip(a + 1 + b + 1 + c)),
                    ) {
                        (Some(layout), Some(visible_layout), Some(name)) => Some(
                            LayoutView {
                                tab_id: tab_id as u32,
                                layout,
                                visible_layout,
                                flags: flags_of(rest.subrange(a + 1 + b + 1, a + 1 + b + 1 + c)),
                                name,
                            },
                        ),
                        _ => None,
                    }
                }
            },
        }
    }
}

fn read_number(s: &[u8], at: usize, max: u32) -> (r: Option<(u32, usize)>)
    ensures
        r matches Some((value, next)) ==> number_at(s@, at as int, max as int) == Some(
            (value as int, next as int),
        ) && next <= s@.len(),
        r is None ==> number_at(s@, at as int, max as int) is None,
{
    if at > s.len() {
        return None;
    }
    let rest = slice_subrange(s, at, s.len());
    assert(rest@ =~= s@.skip(at as int));
    proof {
        lemma_digit_run_facts(rest@);
    }
    match leading_digits(rest) {
        Some((value, n)) => if n > 0 && value <= max {
            Some((value, at + n))
        } else {
            None
        },
        None => None,
    }
}

fn read_number_then(s: &[u8], at: usize, max: u32, sep: u8) -> (r: Option<(u32, usize)>)
    ensures
        r matches Some((value, next)) ==> number_then(s@, at as int, max as int, sep) == Some(
            (value as int, next as int),
        ) && next <= s@.len(),
        r is None ==> number_then(s@, at as int, max as int, sep) is None,
{
    match read_number(s, at, max) {
        Some((value, next)) => if next < s.len() && s[next] == sep {
            Some((value, next + 1))
        } else {
            None
        },
        None => None,
    }
}

fn read_bounds(s: &[u8]) -> (r: Option<(Rectangle, usize)>)
    ensures
        r matches Some((bounds, next)) ==> bounds_at_start(s@) == Some((bounds, next as int))
            && 0 < next <= s@.len(),
        r is None ==> bounds_at_start(s@) is None,
{
    reveal(bounds_at_start);
    let max: u32 = 0x7fff_ffff;
    let (width, a) = match read_number_then(s, 0, max, 120) {
        Some(found) => found,
        None => return None,
    };
    let (height, b) = match read_number_then(s, a, max, 44) {
        Some(found) => found,
        None => return None,
    };
    let (x, c) = match read_number_then(s, b, max, 44) {
        Some(found) => found,
        None => return None,
    };
    let (y, d) = match read_number(s, c, max) {
        Some(found) => found,
        None => return None,
    };
    Some(
        (Rectangle { x: x as i32, y: y as i32, width: width as i32, height: height as i32 }, d),
    )
}

fn read_cell(s: &[u8], out: &mut Vec<TmuxPane>) -> (r: Option<usize>)
    ensures
        r matches Some(n) ==> n <= s@.len() && cell_at_start(s@) is Some && cell_at_start(s@)->Some_0.1 == n
            && final(out)@ == old(out)@ + cell_at_start(s@)->Some_0.0,
        r is None ==> cell_at_start(s@) is None,
    decreases s@.len(), 0int,
{
    let (bounds, at) = match read_bounds(s) {
        Some(found) => found,
        None => return None,
    };
    if at >= s.len() {
        return None;
    }
    if s[at] == 44 {
        return match read_number(s, at + 1, 0xffff_ffff) {
            Some((id, next)) => {
                out.push(TmuxPane::Terminal(id, bounds));
                assert(out@ =~= old(out)@ + seq![TmuxPane::Terminal(id, bounds)]);
                Some(next)
            },
            None => None,
        };
    }
    let (orientation, close): (Orientation, u8) = if s[at] == 123 {
        (Orientation::Horizontal, 125)
    } else if s[at] == 91 {
        (Orientation::Vertical, 93)
    } else {
        return None;
    };
    out.push(TmuxPane::Container(orientation, bounds));
    let rest = slice_subrange(s, at + 1, s.len());
    assert(rest@ =~= s@.skip(at + 1));
    let n: usize = match read_cells(rest, out) {
        Some(n) => n,
        None => return None,
    };
    let end: usize = at + 1 + n;
    if end < s.len() && s[end] == close {
        out.push(TmuxPane::Return);
        proof {
            let children = cells_at_start(s@.skip(at + 1))->Some_0.0;
            assert(out@ =~= old(out)@ + (seq![TmuxPane::Container(orientation, bounds)] + children
                + seq![TmuxPane::Return]));
        }
        Some(end + 1)
    } else {
        None
    }
}

fn read_cells(s: &[u8], out: &mut Vec<TmuxPane>) -> (r: Option<usize>)
    ensures
        r matches Some(n) ==> n <= s@.len() && cells_at_start(s@) is Some && cells_at_start(s@)->Some_0.1 == n
            && final(out)@ == old(out)@ + cells_at_start(s@)->Some_0.0,
        r is None ==> cells_at_start(s@) is None,
    decreases s@.len(), 1int,
{
    let n: usize = match read_cell(s, out) {
        Some(n) => n,
        None => return None,
    };
    if n < s.len() && s[n] == 44 {
        let ghost first = cell_at_start(s@)->Some_0.0;
        let rest = slice_subrange(s, n + 1, s.len());
        assert(rest@ =~= s@.skip(n + 1));
        match read_cells(rest, out) {
            Some(m) => {
                proof {
                    let others = cells_at_start(s@.skip(n + 1))->Some_0.0;
                    assert(out@ =~= old(out)@ + (first + others));
                }
                Some(n + 1 + m)
            },
            None => None,
        }
    } else {
        Some(n)
    }
}

fn read_layout(s: &[u8]) -> (r: Option<Vec<TmuxPane>>)
    ensures
        r matches Some(panes) ==> layout_panes(s@) == Some(panes@),
        r is None ==> layout_panes(s@) is None,
{
    if s.len() <= 5 || s[4] != 44 {
        return None;
    }
    let rest = slice_subrange(s, 5, s.len());
    assert(rest@ =~= s@.skip(5));
    let mut panes: Vec<TmuxPane> = Vec::new();
    match read_cell(rest, &mut panes) {
        Some(n) => if n == rest.len() {
            assert(panes@ =~= cell_at_start(rest@)->Some_0.0);
            Some(panes)
        } else {
            None
        },
        None => None,
    }
}

proof fn lemma_word_len(s: Seq<u8>, n: int)
    requires
        0 <= n <= s.len(),
        forall|i: int| 0 <= i < n ==> #[trigger] s[i] != 32,
        n == s.len() || s[n] == 32,
    ensures
        word_len(s) == n,
    decreases n,
{
    if n > 0 {
        assert(s[0] != 32);
        assert forall|i: int| 0 <= i < n - 1 implies #[trigger] s.skip(1)[i] != 32 by {
            assert(s[i + 1] != 32);
        }
        lemma_word_len(s.skip(1), n - 1);
    }
}

fn read_word(s: &[u8], at: usize) -> (n: usize)
    requires
        at <= s@.len(),
    ensures
        n == word_len(s@.skip(at as int)),
        at + n <= s@.len(),
{
    let mut i: usize = at;
    while i < s.len() && s[i] != 32
        invariant
            at <= i <= s@.len(),
            forall|j: int| at <= j < i ==> #[trigger] s@[j] != 32,
        ensures
            i == s@.len() || s@[i as int] == 32,
        decreases s@.len() - i,
    {
        i += 1;
    }
    proof {
        let rest = s@.skip(at as int);
        assert forall|j: int| 0 <= j < i - at implies #[trigger] rest[j] != 32 by {
            assert(s@[at + j] != 32);
        }
        lemma_word_len(rest, i - at);
    }
    i - at
}

fn holds_byte(s: &[u8], b: u8) -> (r: bool)
    ensures
        r == s@.contains(b),
{
    let mut i: usize = 0;
    while i < s.len()
        invariant
            i <= s@.len(),
            forall|j: int| 0 <= j < i ==> #[trigger] s@[j] != b,
        decreases s@.len() - i,
    {
        if s[i] == b {
            return true;
        }
        i += 1;
    }
    false
}

/// Reads a layout line; `None` where it is malformed.
pub fn parse_tmux_layout(buffer: &[u8]) -> (r: Option<LayoutSync>)
    ensures
        r matches Some(sync) ==> layout_of(buffer@) == Some(sync@),
        r is None ==> layout_of(buffer@) is None,
{
    if buffer.len() == 0 || buffer[0] != 64 {
        return None;
    }
    let (tab_id, at) = match read_number_then(buffer, 1, 0xffff_ffff, 32) {
        Some(found) => found,
        None => return None,
    };
    let rest = slice_subrange(buffer, at, buffer.len());
    assert(rest@ =~= buffer@.skip(at as int));
    assert(rest@.skip(0) =~= rest@);
    let a: usize = read_word(rest, 0);
    if a >= rest.len() {
        return None;
    }
    let b: usize = read_word(rest, a + 1);
    if a + 1 + b >= rest.len() {
        return None;
    }
    let c: usize = read_word(rest, a + 1 + b + 1);
    let flags_at: usize = a + 1 + b + 1;
    let name_at: usize = flags_at + c;
    assert(rest@.take(a as int) =~= rest@.subrange(0, a as int));
    let layout = match read_layout(slice_subrange(rest, 0, a)) {
        Some(panes) => panes,
        None => return None,
    };
    let visible_layout = match read_layout(slice_subrange(rest, a + 1, a + 1 + b)) {
        Some(panes) => panes,
        None => return None,
    };
    let name = if name_at == rest.len() {
        None
    } else {
        let tail = slice_subrange(rest, name_at + 1, rest.len());
        assert(tail@ =~= rest@.skip(name_at as int).skip(1));
        match parse_utf8(tail) {
            Ok(text) => Some(text.to_string()),
            Err(_) => return None,
        }
    };
    let word = slice_subrange(rest, flags_at, name_at);
    let flags = LayoutFlagSet { has_focus: holds_byte(word, 42), is_zoomed: holds_byte(word, 90) };
    Some(LayoutSync { tab_id, layout, visible_layout, flags, name })
}

// ---------------------------------------------------------------------------
// Laws
// ---------------------------------------------------------------------------

/// A cell of a window: a pane, or other cells side by side or on top of each
/// other.
pub enum LayoutCell {
    Pane(u32, Rectangle),
    Split(Orientation, Rectangle, Seq<LayoutCell>),
}

/// The digits of `n` in base ten.
pub open spec fn decimal_bytes(n: nat) -> Seq<u8>
    decreases n,
{
    if n < 10 {
        seq![(48 + n) as u8]
    } else {
        decimal_bytes(n / 10).push((48 + n % 10) as u8)
    }
}

/// Bounds as Tmux writes them: `WxH,X,Y`.
#[verifier::opaque]
pub open spec fn bounds_text(bounds: Rectangle) -> Seq<u8> {
    decimal_bytes(bounds.width as nat) + seq![120u8] + decimal_bytes(bounds.height as nat)
        + seq![44u8] + decimal_bytes(bounds.x as nat) + seq![44u8] + decimal_bytes(bounds.y as nat)
}

/// A cell as Tmux writes it.
pub open spec fn cell_text(cell: LayoutCell) -> Seq<u8>
    decreases cell,
{
    match cell {
        LayoutCell::Pane(id, bounds) => bounds_text(bounds) + seq![44u8] + decimal_bytes(id as nat),
        LayoutCell::Split(Orientation::Horizontal, bounds, children) => bounds_text(bounds)
            + seq![123u8] + cells_text(children) + seq![125u8],
        LayoutCell::Split(Orientation::Vertical, bounds, children) => bounds_text(bounds)
            + seq![91u8] + cells_text(children) + seq![93u8],
    }
}

/// Cells as Tmux writes them, separated by commas.
pub open spec fn cells_text(cells: Seq<LayoutCell>) -> Seq<u8>
    decreases cells,
{
    if cells.len() == 0 {
        Seq::empty()
    } else if cells.len() == 1 {
        cell_text(cells[0])
    } else {
        cell_text(cells[0]) + seq![44u8] + cells_text(cells.subrange(1, cells.len() as int))
    }
}

/// The steps through the hierarchy of a cell.
pub open spec fn cell_panes(cell: LayoutCell) -> Seq<TmuxPane>
    decreases cell,
{
    match cell {
        LayoutCell::Pane(id, bounds) => seq![TmuxPane::Terminal(id, bounds)],
        LayoutCell::Split(orientation, bounds, children) => seq![
            TmuxPane::Container(orientation, bounds),
        ] + cells_panes(children) + seq![TmuxPane::Return],
    }
}

/// The steps through the hierarchies of cells.
pub open spec fn cells_panes(cells: Seq<LayoutCell>) -> Seq<TmuxPane>
    decreases cells,
{
    if cells.len() == 0 {
        Seq::empty()
    } else if cells.len() == 1 {
        cell_panes(cells[0])
    } else {
        cell_panes(cells[0]) + cells_panes(cells.subrange(1, cells.len() as int))
    }
}

/// Whether bounds are such as Tmux writes.
pub open spec fn is_bounds(bounds: Rectangle) -> bool {
    bounds.x >= 0 && bounds.y >= 0 && bounds.width >= 0 && bounds.height >= 0
}

/// Whether a cell is such as Tmux writes: a split one is never empty.
pub open spec fn is_cell(cell: LayoutCell) -> bool
    decreases cell,
{
    match cell {
        LayoutCell::Pane(_, bounds) => is_bounds(bounds),
        LayoutCell::Split(_, bounds, children) => is_bounds(bounds) && children.len() > 0
            && are_cells(children),
    }
}

/// Whether cells are such as Tmux writes.
pub open spec fn are_cells(cells: Seq<LayoutCell>) -> bool
    decreases cells,
{
    if cells.len() == 0 {
        true
    } else {
        is_cell(cells[0]) && are_cells(cells.subrange(1, cells.len() as int))
    }
}

proof fn lemma_decimal_bytes(n: nat)
    ensures
        decimal_bytes(n).len() > 0,
        digits_value(decimal_bytes(n)) == n,
        forall|i: int| 0 <= i < decimal_bytes(n).len() ==> is_digit(#[trigger] decimal_bytes(n)[i]),
    decreases n,
{
    reveal_with_fuel(digits_value, 2);
    if n < 10 {
        assert(decimal_bytes(n).drop_last() =~= Seq::empty());
    } else {
        lemma_decimal_bytes(n / 10);
        assert(decimal_bytes(n).drop_last() =~= decimal_bytes(n / 10));
    }
}

proof fn lemma_digit_run_of(digits: Seq<u8>, rest: Seq<u8>)
    requires
        forall|i: int| 0 <= i < digits.len() ==> is_digit(#[trigger] digits[i]),
        rest.len() == 0 || !is_digit(rest[0]),
    ensures
        digit_run(digits + rest) == digits.len(),
    decreases digits.len(),
{
    let s = digits + rest;
    if digits.len() > 0 {
        assert(is_digit(digits[0]));
        assert(s.skip(1) =~= digits.skip(1) + rest);
        assert forall|i: int| 0 <= i < digits.skip(1).len() implies is_digit(
            #[trigger] digits.skip(1)[i],
        ) by {
            assert(is_digit(digits[i + 1]));
        }
        lemma_digit_run_of(digits.skip(1), rest);
    } else {
        assert(s =~= rest);
    }
}

/// A number that is written behind `front` and before `rest` is read there.
proof fn lemma_number_at(front: Seq<u8>, n: nat, rest: Seq<u8>, max: int)
    requires
        n <= max,
        rest.len() == 0 || !is_digit(rest[0]),
    ensures
        number_at(front + decimal_bytes(n) + rest, front.len() as int, max) == Some(
            (n as int, (front.len() + decimal_bytes(n).len()) as int),
        ),
{
    let digits = decimal_bytes(n);
    let s = front + digits + rest;
    lemma_decimal_bytes(n);
    lemma_digit_run_of(digits, rest);
    assert(s.skip(front.len() as int) =~= digits + rest);
    assert((digits + rest).take(digits.len() as int) =~= digits);
}

proof fn lemma_number_then(front: Seq<u8>, n: nat, sep: u8, rest: Seq<u8>, max: int)
    requires
        n <= max,
        !is_digit(sep),
    ensures
        number_then(front + decimal_bytes(n) + seq![sep] + rest, front.len() as int, max, sep)
            == Some((n as int, (front.len() + decimal_bytes(n).len() + 1) as int)),
{
    let back = seq![sep] + rest;
    lemma_number_at(front, n, back, max);
    assert(front + decimal_bytes(n) + seq![sep] + rest =~= front + decimal_bytes(n) + back);
}

proof fn lemma_bounds(bounds: Rectangle, rest: Seq<u8>)
    requires
        is_bounds(bounds),
        rest.len() == 0 || !is_digit(rest[0]),
    ensures
        bounds_at_start(bounds_text(bounds) + rest) == Some(
            (bounds, bounds_text(bounds).len() as int),
        ),
{
    reveal(bounds_at_start);
    reveal(bounds_text);
    let w = decimal_bytes(bounds.width as nat);
    let h = decimal_bytes(bounds.height as nat);
    let x = decimal_bytes(bounds.x as nat);
    let y = decimal_bytes(bounds.y as nat);
    let max = i32::MAX as int;
    let a = w + seq![120u8];
    let b = a + h + seq![44u8];
    let c = b + x + seq![44u8];
    lemma_bounds_parts(w, h, x, y, rest);
    lemma_number_then(
        Seq::<u8>::empty(),
        bounds.width as nat,
        120,
        h + seq![44u8] + x + seq![44u8] + y + rest,
        max,
    );
    lemma_number_then(a, bounds.height as nat, 44, x + seq![44u8] + y + rest, max);
    lemma_number_then(b, bounds.x as nat, 44, y + rest, max);
    lemma_number_at(c, bounds.y as nat, rest, max);
}

/// The text of bounds, cut behind each of its numbers.
proof fn lemma_bounds_parts(w: Seq<u8>, h: Seq<u8>, x: Seq<u8>, y: Seq<u8>, rest: Seq<u8>)
    ensures
        ({
            let s = w + seq![120u8] + h + seq![44u8] + x + seq![44u8] + y + rest;
            let a = w + seq![120u8];
            let b = a + h + seq![44u8];
            let c = b + x + seq![44u8];
            &&& s == Seq::<u8>::empty() + w + seq![120u8] + (h + seq![44u8] + x + seq![44u8] + y
                + rest)
            &&& s == a + h + seq![44u8] + (x + seq![44u8] + y + rest)
            &&& s == b + x + seq![44u8] + (y + rest)
            &&& s == c + y + rest
            &&& a.len() == w.len() + 1
            &&& b.len() == a.len() + h.len() + 1
            &&& c.len() == b.len() + x.len() + 1
            &&& (w + seq![120u8] + h + seq![44u8] + x + seq![44u8] + y).len() == c.len() + y.len()
        }),
{
    let s = w + seq![120u8] + h + seq![44u8] + x + seq![44u8] + y + rest;
    assert(s =~= Seq::<u8>::empty() + w + seq![120u8] + (h + seq![44u8] + x + seq![44u8] + y
        + rest));
    assert(s =~= w + seq![120u8] + h + seq![44u8] + (x + seq![44u8] + y + rest));
    assert(s =~= w + seq![120u8] + h + seq![44u8] + x + seq![44u8] + (y + rest));
}

proof fn lemma_cell_read(cell: LayoutCell, rest: Seq<u8>)
    requires
        is_cell(cell),
        rest.len() == 0 || !is_digit(rest[0]),
    ensures
        cell_at_start(cell_text(cell) + rest) == Some(
            (cell_panes(cell), cell_text(cell).len() as int),
        ),
    decreases cell,
{
    let s = cell_text(cell) + rest;
    match cell {
        LayoutCell::Pane(id, bounds) => {
            let front = bounds_text(bounds);
            let back = seq![44u8] + decimal_bytes(id as nat) + rest;
            lemma_bounds(bounds, back);
            assert(s =~= front + back);
            lemma_number_at(front + seq![44u8], id as nat, rest, u32::MAX as int);
            assert(s =~= front + seq![44u8] + decimal_bytes(id as nat) + rest);
            assert(s[front.len() as int] == 44);
        },
        LayoutCell::Split(orientation, bounds, children) => {
            let front = bounds_text(bounds);
            let (open, close): (u8, u8) = match orientation {
                Orientation::Horizontal => (123u8, 125u8),
                Orientation::Vertical => (91u8, 93u8),
            };
            let inside = cells_text(children);
            let back = seq![open] + inside + seq![close] + rest;
            lemma_bounds(bounds, back);
            assert(s =~= front + back);
            assert(s[front.len() as int] == open);
            let tail = seq![close] + rest;
            lemma_cells_read(children, tail);
            assert(s.skip(front.len() as int + 1) =~= inside + tail);
            assert(s[front.len() as int + 1 + inside.len()] == close);
        },
    }
}

proof fn lemma_cells_read(cells: Seq<LayoutCell>, rest: Seq<u8>)
    requires
        cells.len() > 0,
        are_cells(cells),
        rest.len() == 0 || (!is_digit(rest[0]) && rest[0] != 44),
    ensures
        cells_at_start(cells_text(cells) + rest) == Some(
            (cells_panes(cells), cells_text(cells).len() as int),
        ),
    decreases cells,
{
    let s = cells_text(cells) + rest;
    let first = cell_text(cells[0]);
    if cells.len() == 1 {
        lemma_cell_read(cells[0], rest);
    } else {
        let others = cells.subrange(1, cells.len() as int);
        let back = seq![44u8] + cells_text(others) + rest;
        lemma_cell_read(cells[0], back);
        assert(s =~= first + back);
        assert(s[first.len() as int] == 44);
        lemma_cells_read(others, rest);
        assert(s.skip(first.len() as int + 1) =~= cells_text(others) + rest);
    }
}

/// A layout is read back as it was written: the hierarchy of panes, their
/// bounds and their order, however deep it is.
pub proof fn law_layouts_are_read_back(checksum: Seq<u8>, cell: LayoutCell)
    requires
        checksum.len() == 4,
        is_cell(cell),
    ensures
        layout_panes(checksum + seq![44u8] + cell_text(cell)) == Some(cell_panes(cell)),
{
    let empty = Seq::<u8>::empty();
    let s = checksum + seq![44u8] + cell_text(cell);
    lemma_cell_read(cell, empty);
    assert(cell_text(cell) + empty =~= cell_text(cell));
    assert(s.skip(5) =~= cell_text(cell));
    lemma_cell_text_is_some(cell);
}

proof fn lemma_cell_text_is_some(cell: LayoutCell)
    ensures
        cell_text(cell).len() > 0,
{
    match cell {
        LayoutCell::Pane(_, _) => {},
        LayoutCell::Split(Orientation::Horizontal, _, _) => {},
        LayoutCell::Split(Orientation::Vertical, _, _) => {},
    }
}

proof fn lemma_word(word: Seq<u8>, rest: Seq<u8>)
    requires
        !word.contains(32),
        rest.len() == 0 || rest[0] == 32,
    ensures
        word_len(word + rest) == word.len(),
    decreases word.len(),
{
    let s = word + rest;
    if word.len() == 0 {
        assert(s =~= rest);
    } else {
        assert(word.contains(word[0]));
        let shorter = word.skip(1);
        if shorter.contains(32) {
            let i = choose|i: int| 0 <= i < shorter.len() && shorter[i] == 32;
            assert(word[i + 1] == 32);
        }
        assert(s.skip(1) =~= shorter + rest);
        lemma_word(shorter, rest);
    }
}

/// What stands behind the flags of a layout line: nothing, or a space and the
/// name.
pub open spec fn name_text(name: Option<Seq<char>>) -> Seq<u8> {
    match name {
        None => Seq::empty(),
        Some(name) => seq![32u8] + encode_utf8(name),
    }
}

/// A layout line is read back as it was written: the number of the window, its
/// layout and the visible one, each in its place, and its name. The window has
/// the focus where its flags hold a `*`, and is zoomed where they hold a `Z`.
pub proof fn law_layout_lines_are_read_back(
    tab_id: u32,
    first: Seq<u8>,
    visible: Seq<u8>,
    flags: Seq<u8>,
    name: Option<Seq<char>>,
)
    requires
        layout_panes(first) is Some,
        layout_panes(visible) is Some,
        !first.contains(32),
        !visible.contains(32),
        !flags.contains(32),
    ensures
        layout_of(
            seq![64u8] + decimal_bytes(tab_id as nat) + seq![32u8] + first + seq![32u8] + visible
                + seq![32u8] + flags + name_text(name),
        ) == Some(
            LayoutView {
                tab_id,
                layout: layout_panes(first)->Some_0,
                visible_layout: layout_panes(visible)->Some_0,
                flags: LayoutFlagSet {
                    has_focus: flags.contains(42),
                    is_zoomed: flags.contains(90),
                },
                name,
            },
        ),
{
    let end = name_text(name);
    let third = flags + end;
    let second = visible + (seq![32u8] + third);
    let rest = first + (seq![32u8] + second);
    let s = seq![64u8] + decimal_bytes(tab_id as nat) + seq![32u8] + first + seq![32u8] + visible
        + seq![32u8] + flags + end;
    assert(s =~= seq![64u8] + decimal_bytes(tab_id as nat) + seq![32u8] + rest);
    lemma_number_then(seq![64u8], tab_id as nat, 32, rest, u32::MAX as int);
    let at = 1 + decimal_bytes(tab_id as nat).len() + 1;
    assert(s.skip(at as int) =~= rest);
    let a = first.len() as int;
    let b = visible.len() as int;
    let c = flags.len() as int;
    lemma_word(first, seq![32u8] + second);
    lemma_word(visible, seq![32u8] + third);
    lemma_word(flags, end);
    assert(rest.skip(a + 1) =~= second);
    assert(rest.skip(a + 1 + b + 1) =~= third);
    assert(rest.take(a) =~= first);
    assert(rest.subrange(a + 1, a + 1 + b) =~= visible);
    assert(rest.subrange(a + 1 + b + 1, a + 1 + b + 1 + c) =~= flags);
    assert(rest.skip(a + 1 + b + 1 + c) =~= end);
    if let Some(text) = name {
        assert(end.skip(1) =~= encode_utf8(text));
        encode_utf8_valid_utf8(text);
        encode_utf8_decode_utf8(text);
    }
}

/// Curly brackets hold cells side by side, square ones cells on top of each
/// other; each is closed by its counterpart, and nothing else opens a split.
pub proof fn law_brackets_tell_the_split(b: u8)
    ensures
        opened_by(123) == Some((Orientation::Horizontal, 125u8)),
        opened_by(91) == Some((Orientation::Vertical, 93u8)),
        b != 123 && b != 91 ==> opened_by(b) is None,
{
}

/// Bounds are read as `WxH,X,Y`, and a pane as its bounds and its number.
pub proof fn law_bounds_are_read_in_order(
    width: i32,
    height: i32,
    x: i32,
    y: i32,
    id: u32,
    rest: Seq<u8>,
)
    requires
        width >= 0,
        height >= 0,
        x >= 0,
        y >= 0,
        rest.len() == 0 || !(48 <= rest[0] <= 57),
    ensures
        ({
            let bounds = Rectangle { x, y, width, height };
            let text = decimal_bytes(width as nat) + seq![120u8] + decimal_bytes(height as nat)
                + seq![44u8] + decimal_bytes(x as nat) + seq![44u8] + decimal_bytes(y as nat);
            let pane = text + seq![44u8] + decimal_bytes(id as nat);
            &&& bounds_at_start(text + rest) == Some((bounds, text.len() as int))
            &&& cell_at_start(pane + rest) == Some(
                (seq![TmuxPane::Terminal(id, bounds)], pane.len() as int),
            )
        }),
{
    reveal(bounds_text);
    let bounds = Rectangle { x, y, width, height };
    lemma_bounds(bounds, rest);
    lemma_cell_read(LayoutCell::Pane(id, bounds), rest);
}

} // verus!
