//! Pure logic for mosh-style predictive echo: classifying input, matching
//! predictions against the authoritative screen and laying predicted
//! graphemes out on the cell grid.

use unicode_segmentation::UnicodeSegmentation;
use unicode_width::UnicodeWidthStr;
use vstd::prelude::*;
use vstd::utf8::encode_utf8;

use crate::text::{chars_of, lemma_encode_concat, same_text};

verus! {

/// Unconfirmed predictions are discarded after this many seconds
pub const PREDICTION_TIMEOUT_SECS: u64 = 2;

/// A commit with more graphemes than this is a paste, not typing
pub const MAX_COMMIT_GRAPHEMES: usize = 64;

// ---------------------------------------------------------------------------
// Graphemes
// ---------------------------------------------------------------------------

/// The extended grapheme clusters of a text.
pub uninterp spec fn graphemes(text: Seq<char>) -> Seq<Seq<char>>;

/// The number of columns that a text takes on a terminal.
pub uninterp spec fn display_width(text: Seq<char>) -> nat;

/// The texts of a list of strings.
pub open spec fn texts(pieces: Seq<&str>) -> Seq<Seq<char>> {
    Seq::new(pieces.len(), |i: int| pieces[i]@)
}

/// The texts, one behind the other.
pub open spec fn concat(pieces: Seq<Seq<char>>) -> Seq<char>
    decreases pieces.len(),
{
    if pieces.len() == 0 {
        Seq::empty()
    } else {
        concat(pieces.drop_last()) + pieces.last()
    }
}

/// Trusted: `UnicodeSegmentation::graphemes` with extended clusters cuts the
/// text into non-empty pieces that make it up again, in a way that depends on
/// the text alone. It goes through the text from its start, and whether it cuts
/// at a place depends on what comes before and on the next character only: a
/// text that ends where it cuts is itself cut at the same places.
#[verifier::external_body]
fn graphemes_of(text: &str) -> (pieces: Vec<&str>)
    ensures
        texts(pieces@) == graphemes(text@),
        concat(texts(pieces@)) == text@,
        forall|i: int| 0 <= i < pieces@.len() ==> (#[trigger] pieces@[i])@.len() > 0,
        forall|n: int|
            0 <= n <= pieces@.len() ==> graphemes(concat(#[trigger] texts(pieces@).take(n)))
                == texts(pieces@).take(n),
{
    text.graphemes(true).collect()
}

/// Trusted: `UnicodeWidthStr::width` depends on the text alone, and counts at
/// most three columns for each character.
#[verifier::external_body]
fn width_of(text: &str) -> (width: usize)
    ensures
        width == display_width(text@),
        width <= 3 * text@.len(),
{
    text.width()
}

/// Cell width of a grapheme cluster (at least 1, so zero-width input still
/// occupies a cell rather than corrupting the layout)
pub open spec fn cell_width(grapheme: Seq<char>) -> int {
    if display_width(grapheme) >= 1 {
        display_width(grapheme) as int
    } else {
        1
    }
}

/// Cell width of a grapheme cluster.
pub fn grapheme_cell_width(grapheme: &str) -> (width: i64)
    requires
        3 * grapheme@.len() <= i64::MAX,
    ensures
        width == cell_width(grapheme@),
        1 <= width,
        grapheme@.len() > 0 ==> width <= 3 * grapheme@.len(),
{
    let width: usize = width_of(grapheme);
    if width >= 1 {
        width as i64
    } else {
        1
    }
}

// ---------------------------------------------------------------------------
// Input
// ---------------------------------------------------------------------------

/// State of the predictive echo of one terminal
#[derive(Debug)]
pub struct PredictionState {
    /// Predicted text which the remote echo has not confirmed yet
    pub text: String,
    /// Cell the prediction starts at: (column, absolute row)
    pub origin: (i64, i64),
    /// Predictions are only displayed once the remote confirmed at least
    /// one grapheme since the last discard; this keeps no-echo input
    /// (password prompts) invisible
    pub display_unlocked: bool,
    /// Bumped on every state change; lets pending timeouts detect that
    /// they are stale
    pub generation: u64,
}

/// Mathematical value of a `PredictionState`.
#[verifier::ext_equal]
pub struct PredictionView {
    pub text: Seq<char>,
    pub origin: (i64, i64),
    pub unlocked: bool,
    pub generation: u64,
}

impl View for PredictionState {
    type V = PredictionView;

    open spec fn view(&self) -> PredictionView {
        PredictionView {
            text: self.text@,
            origin: self.origin,
            unlocked: self.display_unlocked,
            generation: self.generation,
        }
    }
}

impl Default for PredictionState {
    fn default() -> (state: PredictionState)
        ensures
            state@ == (PredictionView {
                text: Seq::empty(),
                origin: (0i64, 0i64),
                unlocked: false,
                generation: 0,
            }),
    {
        PredictionState {
            text: String::new(),
            origin: (0, 0),
            display_unlocked: false,
            generation: 0,
        }
    }
}

/// A state with another prediction, of the next generation.
pub open spec fn changed(state: PredictionView, text: Seq<char>) -> PredictionView {
    PredictionView { text, generation: (state.generation + 1) as u64, ..state }
}

/// A state without its prediction: what comes stays hidden until the remote
/// has echoed something again.
pub open spec fn discarded(state: PredictionView) -> PredictionView {
    PredictionView { unlocked: false, ..changed(state, Seq::empty()) }
}

impl PredictionState {
    /// Forgets the prediction and hides what comes until the remote has
    /// echoed something again.
    pub fn discard(&mut self)
        requires
            old(self).generation < u64::MAX,
        ensures
            final(self)@ == discarded(old(self)@),
    {
        self.text = String::new();
        self.display_unlocked = false;
        self.generation += 1;
    }
}

/// What one `commit` chunk means for the prediction
#[derive(Clone, Copy, Debug, PartialEq, Eq, Structural)]
pub enum CommitKind {
    /// Printable text: append to the prediction
    Append,
    /// Backspace: erase the last predicted grapheme
    Backspace,
    /// Anything else (control keys, escape sequences, pastes): the effect
    /// on the screen is unpredictable, discard
    Control,
}

/// Whether `c` is a control character (general category Cc).
pub open spec fn is_control(c: char) -> bool {
    c as u32 <= 0x1f || 0x7f <= c as u32 <= 0x9f
}

/// What a chunk means that has `count` graphemes.
pub open spec fn commit_kind(text: Seq<char>, count: nat) -> CommitKind {
    if text == seq!['\x7f'] || text == seq!['\x08'] {
        CommitKind::Backspace
    } else if text.len() == 0 || (exists|i: int|
        0 <= i < text.len() && is_control(#[trigger] text[i])) || count > MAX_COMMIT_GRAPHEMES {
        CommitKind::Control
    } else {
        CommitKind::Append
    }
}

/// What the chunk `text` means, given the number of its graphemes.
pub fn classify_counted(text: &str, count: usize) -> (kind: CommitKind)
    ensures
        kind == commit_kind(text@, count as nat),
{
    let chars = chars_of(text);
    if chars.len() == 1 && (chars[0] == '\x7f' || chars[0] == '\x08') {
        assert(text@ =~= seq![chars@[0]]);
        return CommitKind::Backspace;
    }
    if chars.len() == 0 {
        return CommitKind::Control;
    }
    assert(text@ != seq!['\x7f'] && text@ != seq!['\x08']) by {
        if text@.len() == 1 {
            assert(seq!['\x7f'][0] == '\x7f');
            assert(seq!['\x08'][0] == '\x08');
        }
    }
    let mut i: usize = 0;
    while i < chars.len()
        invariant
            chars@ == text@,
            chars@.len() > 0,
            text@ != seq!['\x7f'] && text@ != seq!['\x08'],
            i <= chars@.len(),
            forall|j: int| 0 <= j < i ==> !is_control(#[trigger] chars@[j]),
        decreases chars@.len() - i,
    {
        let code: u32 = chars[i] as u32;
        if code <= 0x1f || (0x7f <= code && code <= 0x9f) {
            assert(is_control(text@[i as int]));
            return CommitKind::Control;
        }
        i += 1;
    }
    if count > MAX_COMMIT_GRAPHEMES {
        CommitKind::Control
    } else {
        CommitKind::Append
    }
}

/// What the chunk `text` means for the prediction.
pub fn classify_commit(text: &str) -> (kind: CommitKind)
    ensures
        kind == commit_kind(text@, graphemes(text@).len()),
{
    let pieces = graphemes_of(text);
    let count: usize = pieces.len();
    assert(count == texts(pieces@).len());
    classify_counted(text, count)
}

/// The text of the pieces from `from` up to `to`.
fn append_pieces(pieces: &Vec<&str>, from: usize, to: usize) -> (text: String)
    requires
        from <= to <= pieces@.len(),
    ensures
        text@ == concat(texts(pieces@).subrange(from as int, to as int)),
{
    let mut text = String::new();
    let ghost all = texts(pieces@);
    let mut i: usize = from;
    assert(concat(all.subrange(from as int, from as int)) =~= Seq::<char>::empty());
    while i < to
        invariant
            from <= i <= to <= pieces@.len(),
            all == texts(pieces@),
            text@ == concat(all.subrange(from as int, i as int)),
        decreases to - i,
    {
        text.append(pieces[i]);
        assert(all.subrange(from as int, i + 1).drop_last() =~= all.subrange(
            from as int,
            i as int,
        ));
        i += 1;
    }
    text
}

/// The text of all `pieces` but the last; `None` where there is none.
pub fn without_last(pieces: &Vec<&str>) -> (r: Option<String>)
    ensures
        r is Some <==> pieces@.len() > 0,
        r matches Some(text) ==> text@ == concat(texts(pieces@).drop_last()),
{
    if pieces.len() == 0 {
        return None;
    }
    let text = append_pieces(pieces, 0, pieces.len() - 1);
    assert(texts(pieces@).subrange(0, pieces@.len() - 1) =~= texts(pieces@).drop_last());
    Some(text)
}

/// Removes the last grapheme; returns false when there was nothing to remove
pub fn pop_grapheme(text: &mut String) -> (r: bool)
    ensures
        r == (old(text)@.len() > 0),
        r == (graphemes(old(text)@).len() > 0),
        r ==> final(text)@ == concat(graphemes(old(text)@).drop_last()),
        r ==> old(text)@ == final(text)@ + graphemes(old(text)@).last(),
        r ==> graphemes(final(text)@) == graphemes(old(text)@).drop_last(),
        !r ==> final(text)@ == old(text)@,
        concat(graphemes(old(text)@)) == old(text)@,
{
    let pieces = graphemes_of(text.as_str());
    proof {
        let all = texts(pieces@);
        if all.len() > 0 {
            assert(all.last() == pieces@[pieces@.len() - 1]@);
            assert(concat(all).len() == concat(all.drop_last()).len() + all.last().len());
            assert(all.drop_last() =~= all.take(all.len() - 1));
        } else {
            assert(concat(all).len() == 0);
        }
        assert(all.len() == pieces@.len());
    }
    match without_last(&pieces) {
        Some(kept) => {
            *text = kept;
            true
        },
        None => false,
    }
}

// ---------------------------------------------------------------------------
// Confirmation
// ---------------------------------------------------------------------------

/// Whether a grapheme of the screen only ends a row. A carriage return and
/// the line feed behind it are one grapheme.
pub open spec fn ends_row(grapheme: Seq<char>) -> bool {
    grapheme == seq!['\n'] || grapheme == seq!['\r'] || grapheme == seq!['\r', '\n']
}

/// The graphemes of the screen, without those that only end a row.
pub open spec fn on_screen(pieces: Seq<Seq<char>>) -> Seq<Seq<char>>
    decreases pieces.len(),
{
    if pieces.len() == 0 {
        Seq::empty()
    } else if ends_row(pieces[0]) {
        on_screen(pieces.skip(1))
    } else {
        seq![pieces[0]] + on_screen(pieces.skip(1))
    }
}

/// The number of leading pieces that two lists have in common.
pub open spec fn agreement(a: Seq<Seq<char>>, b: Seq<Seq<char>>) -> nat
    decreases a.len(),
{
    if a.len() > 0 && b.len() > 0 && a[0] == b[0] {
        1 + agreement(a.skip(1), b.skip(1))
    } else {
        0
    }
}

fn is_row_end(grapheme: &str) -> (r: bool)
    ensures
        r == ends_row(grapheme@),
{
    proof {
        reveal_strlit("\n");
        reveal_strlit("\r");
        assert("\n"@ =~= seq!['\n']);
        reveal_strlit("\r\n");
        assert("\r"@ =~= seq!['\r']);
        assert("\r\n"@ =~= seq!['\r', '\n']);
    }
    same_text(grapheme, "\n") || same_text(grapheme, "\r") || same_text(grapheme, "\r\n")
}

/// How many of the predicted graphemes those of the screen confirm.
pub fn confirmed_pieces(screen: &Vec<&str>, prediction: &Vec<&str>) -> (n: usize)
    ensures
        n == agreement(on_screen(texts(screen@)), texts(prediction@)),
        n <= prediction@.len(),
{
    let ghost shown = texts(screen@);
    let ghost predicted = texts(prediction@);
    let mut i: usize = 0;
    let mut confirmed: usize = 0;
    assert(shown.skip(0) =~= shown);
    assert(predicted.skip(0) =~= predicted);
    while i < screen.len() && confirmed < prediction.len()
        invariant
            shown == texts(screen@),
            predicted == texts(prediction@),
            i <= screen@.len(),
            confirmed <= prediction@.len(),
            agreement(on_screen(shown), predicted) == confirmed + agreement(
                on_screen(shown.skip(i as int)),
                predicted.skip(confirmed as int),
            ),
        decreases screen@.len() - i,
    {
        let ghost rest = shown.skip(i as int);
        let ghost ahead = predicted.skip(confirmed as int);
        assert(rest.skip(1) =~= shown.skip(i + 1));
        assert(rest[0] == screen@[i as int]@);
        assert(ahead[0] == prediction@[confirmed as int]@);
        if !is_row_end(screen[i]) {
            proof {
                let tail = on_screen(rest.skip(1));
                assert(on_screen(rest)[0] == rest[0]);
                assert(on_screen(rest).skip(1) =~= tail);
                assert(ahead.skip(1) =~= predicted.skip(confirmed + 1));
            }
            if !same_text(screen[i], prediction[confirmed]) {
                return confirmed;
            }
            confirmed += 1;
        }
        i += 1;
    }
    confirmed
}

/// How many leading graphemes of `prediction` the actual screen content
/// (read starting at the prediction origin) confirms. The screen text may
/// contain newlines where the range spans rows; predictions never contain
/// them, so they are dropped before comparing.
pub fn confirmed_graphemes(screen: &str, prediction: &str) -> (n: usize)
    ensures
        n == agreement(on_screen(graphemes(screen@)), graphemes(prediction@)),
        n <= graphemes(prediction@).len(),
{
    let shown = graphemes_of(screen);
    let predicted = graphemes_of(prediction);
    assert(texts(predicted@).len() == predicted@.len());
    confirmed_pieces(&shown, &predicted)
}

/// The first `count` pieces, or all where there are fewer.
pub open spec fn leading(pieces: Seq<Seq<char>>, count: int) -> Seq<Seq<char>> {
    pieces.take(
        if count <= pieces.len() {
            count
        } else {
            pieces.len() as int
        },
    )
}

/// Byte length of the first `count` pieces, or of all where there are fewer.
pub open spec fn byte_offset(pieces: Seq<Seq<char>>, count: int) -> nat {
    encode_utf8(concat(leading(pieces, count))).len()
}

/// A list of pieces is its first `n` and the others.
proof fn lemma_concat_split(pieces: Seq<Seq<char>>, n: int)
    requires
        0 <= n <= pieces.len(),
    ensures
        concat(pieces) == concat(pieces.take(n)) + concat(pieces.skip(n)),
    decreases pieces.len(),
{
    if n == pieces.len() {
        assert(pieces.take(n) =~= pieces);
        assert(concat(pieces) + Seq::<char>::empty() =~= concat(pieces));
    } else {
        let front = pieces.drop_last();
        lemma_concat_split(front, n);
        assert(front.take(n) =~= pieces.take(n));
        assert(pieces.skip(n).drop_last() =~= front.skip(n));
        assert(concat(pieces.take(n)) + concat(front.skip(n)) + pieces.last() =~= concat(
            pieces.take(n),
        ) + (concat(front.skip(n)) + pieces.last()));
    }
}

proof fn lemma_concat_prefix(pieces: Seq<Seq<char>>, n: int)
    requires
        0 <= n <= pieces.len(),
    ensures
        encode_utf8(concat(pieces.take(n))).len() <= encode_utf8(concat(pieces)).len(),
    decreases pieces.len() - n,
{
    if n < pieces.len() {
        assert(pieces.take(n + 1).drop_last() =~= pieces.take(n));
        lemma_encode_concat(concat(pieces.take(n)), pieces[n]);
        lemma_concat_prefix(pieces, n + 1);
    } else {
        assert(pieces.take(n) =~= pieces);
    }
}

/// Byte offset of the end of the first `count` pieces.
pub fn pieces_offset(pieces: &Vec<&str>, count: usize) -> (offset: usize)
    requires
        encode_utf8(concat(texts(pieces@))).len() <= usize::MAX,
    ensures
        offset == byte_offset(texts(pieces@), count as int),
{
    let ghost all = texts(pieces@);
    let mut offset: usize = 0;
    let mut i: usize = 0;
    assert(all.take(0) =~= Seq::empty());
    while i < count && i < pieces.len()
        invariant
            all == texts(pieces@),
            encode_utf8(concat(all)).len() <= usize::MAX,
            i <= count,
            i <= pieces@.len(),
            offset == encode_utf8(concat(all.take(i as int))).len(),
        decreases pieces@.len() - i,
    {
        proof {
            assert(all.take(i + 1).drop_last() =~= all.take(i as int));
            lemma_encode_concat(concat(all.take(i as int)), all[i as int]);
            lemma_concat_prefix(all, i + 1);
        }
        offset += pieces[i].len();
        i += 1;
    }
    offset
}

/// Byte offset of the end of the first `count` graphemes
pub fn grapheme_offset(text: &str, count: usize) -> (offset: usize)
    ensures
        offset == byte_offset(graphemes(text@), count as int),
        encode_utf8(text@).take(offset as int) == encode_utf8(
            concat(leading(graphemes(text@), count as int)),
        ),
        graphemes(concat(leading(graphemes(text@), count as int))) == leading(
            graphemes(text@),
            count as int,
        ),
        graphemes(text@).len() <= count <==> offset == encode_utf8(text@).len(),
        concat(graphemes(text@)) == text@,
        forall|i: int|
            0 <= i < graphemes(text@).len() ==> (#[trigger] graphemes(text@)[i]).len() > 0,
{
    let pieces = graphemes_of(text);
    let length: usize = text.as_bytes().len();
    assert(length == encode_utf8(text@).len());
    let offset: usize = pieces_offset(&pieces, count);
    proof {
        let all = texts(pieces@);
        assert forall|i: int| 0 <= i < graphemes(text@).len() implies (#[trigger] graphemes(
            text@,
        )[i]).len() > 0 by {
            assert(pieces@[i]@.len() > 0);
        }
        let n = if count <= all.len() {
            count as int
        } else {
            all.len() as int
        };
        lemma_concat_split(all, n);
        lemma_encode_concat(concat(all.take(n)), concat(all.skip(n)));
        assert(encode_utf8(text@).take(offset as int) =~= encode_utf8(concat(all.take(n))));
        if n < all.len() {
            let rest = all.skip(n);
            assert(rest.last() == pieces@[pieces@.len() - 1]@);
            assert(concat(rest).len() > 0);
        } else {
            assert(all.skip(n) =~= Seq::empty());
        }
    }
    offset
}

// ---------------------------------------------------------------------------
// Layout
// ---------------------------------------------------------------------------

/// The sum of some widths.
pub open spec fn total(widths: Seq<i64>) -> int
    decreases widths.len(),
{
    if widths.len() == 0 {
        0
    } else {
        total(widths.drop_last()) + widths.last()
    }
}

/// Where something `width` wide goes that is next to stand at `pen`: to the
/// start of the next row where it does not fit.
pub open spec fn placed(pen: (int, int), width: int, cols: int) -> (int, int) {
    if pen.0 + width > cols {
        (0, pen.1 + 1)
    } else {
        pen
    }
}

/// The position behind the last of some widths, laid out from `origin_col`.
pub open spec fn pen_after(widths: Seq<i64>, origin_col: int, cols: int) -> (int, int)
    decreases widths.len(),
{
    if widths.len() == 0 {
        (origin_col, 0)
    } else {
        let cell = placed(
            pen_after(widths.drop_last(), origin_col, cols),
            widths.last() as int,
            cols,
        );
        (cell.0 + widths.last(), cell.1)
    }
}

/// The cell of the `i`th of some widths.
pub open spec fn cell_of(widths: Seq<i64>, i: int, origin_col: int, cols: int) -> (int, int) {
    placed(pen_after(widths.take(i), origin_col, cols), widths[i] as int, cols)
}

/// The caret: the cell one past the end.
pub open spec fn caret_after(widths: Seq<i64>, origin_col: int, cols: int) -> (int, int) {
    let pen = pen_after(widths, origin_col, cols);
    if pen.0 >= cols {
        (0, pen.1 + 1)
    } else {
        pen
    }
}

/// Whether the columns and rows of a layout fit in 64 bits.
pub open spec fn layout_fits(widths: Seq<i64>, origin_col: int) -> bool {
    &&& forall|i: int| 0 <= i < widths.len() ==> 1 <= #[trigger] widths[i]
    &&& total(widths) < i64::MAX
    &&& origin_col + total(widths) < i64::MAX
}

proof fn lemma_pen_bounds(widths: Seq<i64>, n: int, origin_col: int, cols: int)
    requires
        0 <= n <= widths.len(),
        forall|i: int| 0 <= i < widths.len() ==> 1 <= #[trigger] widths[i],
    ensures
        n <= total(widths.take(n)) <= total(widths),
        ({
            let pen = pen_after(widths.take(n), origin_col, cols);
            &&& pen.0 >= origin_col || pen.0 >= 0
            &&& pen.0 <= origin_col + total(widths.take(n)) || pen.0 <= total(widths.take(n))
            &&& 0 <= pen.1 <= n
        }),
    decreases widths.len() + n,
{
    if n > 0 {
        lemma_pen_bounds(widths, n - 1, origin_col, cols);
        assert(widths.take(n).drop_last() =~= widths.take(n - 1));
    }
    if n < widths.len() {
        let shorter = widths.drop_last();
        assert(shorter.take(n) =~= widths.take(n));
        assert forall|i: int| 0 <= i < shorter.len() implies 1 <= #[trigger] shorter[i] by {
            assert(shorter[i] == widths[i]);
        }
        lemma_pen_bounds(shorter, n, origin_col, cols);
    } else {
        assert(widths.take(n) =~= widths);
    }
}

/// Lays things of the given widths out on the cell grid starting at
/// `origin_col`, wrapping at `cols`. Returns their cells, as columns and row
/// deltas, and the caret cell one past the end.
pub fn place_cells(widths: &Vec<i64>, origin_col: i64, cols: i64) -> (r: (
    Vec<(i64, i64)>,
    (i64, i64),
))
    requires
        layout_fits(widths@, origin_col as int),
    ensures
        r.0@.len() == widths@.len(),
        forall|i: int|
            0 <= i < widths@.len() ==> {
                let cell = cell_of(widths@, i, origin_col as int, cols as int);
                (#[trigger] r.0@[i]).0 == cell.0 && r.0@[i].1 == cell.1
            },
        r.1.0 == caret_after(widths@, origin_col as int, cols as int).0,
        r.1.1 == caret_after(widths@, origin_col as int, cols as int).1,
{
    let mut cells: Vec<(i64, i64)> = Vec::new();
    let mut col: i64 = origin_col;
    let mut row: i64 = 0;
    let mut i: usize = 0;
    assert(widths@.take(0) =~= Seq::empty());
    while i < widths.len()
        invariant
            layout_fits(widths@, origin_col as int),
            i <= widths@.len(),
            cells@.len() == i,
            col == pen_after(widths@.take(i as int), origin_col as int, cols as int).0,
            row == pen_after(widths@.take(i as int), origin_col as int, cols as int).1,
            forall|j: int|
                0 <= j < i ==> {
                    let cell = cell_of(widths@, j, origin_col as int, cols as int);
                    (#[trigger] cells@[j]).0 == cell.0 && cells@[j].1 == cell.1
                },
        decreases widths@.len() - i,
    {
        proof {
            lemma_pen_bounds(widths@, i as int, origin_col as int, cols as int);
            lemma_pen_bounds(widths@, i + 1, origin_col as int, cols as int);
            assert(widths@.take(i + 1).drop_last() =~= widths@.take(i as int));
            assert(total(widths@.take(i + 1)) == total(widths@.take(i as int)) + widths@[i as int]);
        }
        let width: i64 = widths[i];
        if col + width > cols {
            col = 0;
            row += 1;
        }
        cells.push((col, row));
        col += width;
        i += 1;
    }
    proof {
        lemma_pen_bounds(widths@, i as int, origin_col as int, cols as int);
        assert(widths@.take(i as int) =~= widths@);
    }
    if col >= cols {
        col = 0;
        row += 1;
    }
    (cells, (col, row))
}

/// The cell widths of some graphemes.
pub open spec fn cell_widths(pieces: Seq<Seq<char>>) -> Seq<i64> {
    Seq::new(pieces.len(), |i: int| cell_width(pieces[i]) as i64)
}

fn widths_of(pieces: &Vec<&str>) -> (widths: Vec<i64>)
    requires
        3 * concat(texts(pieces@)).len() <= i64::MAX,
        forall|i: int| 0 <= i < pieces@.len() ==> (#[trigger] pieces@[i])@.len() > 0,
    ensures
        widths@ == cell_widths(texts(pieces@)),
        forall|i: int| 0 <= i < widths@.len() ==> 1 <= #[trigger] widths@[i],
        total(widths@) <= 3 * concat(texts(pieces@)).len(),
{
    let ghost all = texts(pieces@);
    let mut widths: Vec<i64> = Vec::new();
    let mut i: usize = 0;
    assert(all.take(0) =~= Seq::empty());
    while i < pieces.len()
        invariant
            all == texts(pieces@),
            3 * concat(all).len() <= i64::MAX,
            forall|j: int| 0 <= j < pieces@.len() ==> (#[trigger] pieces@[j])@.len() > 0,
            i <= pieces@.len(),
            widths@ == cell_widths(all.take(i as int)),
            forall|j: int| 0 <= j < widths@.len() ==> 1 <= #[trigger] widths@[j],
            total(widths@) <= 3 * concat(all.take(i as int)).len(),
        decreases pieces@.len() - i,
    {
        proof {
            assert(all.take(i + 1).drop_last() =~= all.take(i as int));
            assert(all[i as int] == pieces@[i as int]@);
            assert(pieces@[i as int]@.len() > 0);
            lemma_concat_len(all, i + 1);
        }
        let width: i64 = grapheme_cell_width(pieces[i]);
        let ghost before = widths@;
        widths.push(width);
        proof {
            assert(widths@.drop_last() =~= before);
            assert(widths@ =~= cell_widths(all.take(i + 1)));
        }
        i += 1;
    }
    assert(all.take(all.len() as int) =~= all);
    widths
}

proof fn lemma_concat_len(pieces: Seq<Seq<char>>, n: int)
    requires
        0 <= n <= pieces.len(),
    ensures
        concat(pieces.take(n)).len() <= concat(pieces).len(),
    decreases pieces.len() - n,
{
    if n < pieces.len() {
        assert(pieces.take(n + 1).drop_last() =~= pieces.take(n));
        lemma_concat_len(pieces, n + 1);
    } else {
        assert(pieces.take(n) =~= pieces);
    }
}

/// Lays `text` out on the cell grid starting at `origin_col`, wrapping at
/// `cols`. Returns the cell of every grapheme as (grapheme, col, row delta)
/// plus the caret cell one past the end.
pub fn layout_cells<'a>(text: &'a str, origin_col: i64, cols: i64) -> (r: (
    Vec<(&'a str, i64, i64)>,
    (i64, i64),
))
    requires
        3 * text@.len() < i64::MAX,
        origin_col + 3 * text@.len() < i64::MAX,
    ensures
        concat(graphemes(text@)) == text@,
        r.0@.len() == graphemes(text@).len(),
        forall|i: int|
            0 <= i < r.0@.len() ==> {
                let cell = cell_of(
                    cell_widths(graphemes(text@)),
                    i,
                    origin_col as int,
                    cols as int,
                );
                &&& (#[trigger] r.0@[i]).0@ == graphemes(text@)[i]
                &&& r.0@[i].1 == cell.0
                &&& r.0@[i].2 == cell.1
            },
        r.1.0 == caret_after(cell_widths(graphemes(text@)), origin_col as int, cols as int).0,
        r.1.1 == caret_after(cell_widths(graphemes(text@)), origin_col as int, cols as int).1,
{
    let pieces = graphemes_of(text);
    let widths = widths_of(&pieces);
    let (places, caret) = place_cells(&widths, origin_col, cols);
    let mut cells: Vec<(&'a str, i64, i64)> = Vec::new();
    let mut i: usize = 0;
    while i < pieces.len()
        invariant
            texts(pieces@) == graphemes(text@),
            widths@ == cell_widths(graphemes(text@)),
            places@.len() == pieces@.len(),
            forall|j: int|
                0 <= j < places@.len() ==> {
                    let cell = cell_of(widths@, j, origin_col as int, cols as int);
                    (#[trigger] places@[j]).0 == cell.0 && places@[j].1 == cell.1
                },
            i <= pieces@.len(),
            cells@.len() == i,
            forall|j: int|
                0 <= j < i ==> {
                    let cell = cell_of(widths@, j, origin_col as int, cols as int);
                    &&& (#[trigger] cells@[j]).0@ == graphemes(text@)[j]
                    &&& cells@[j].1 == cell.0
                    &&& cells@[j].2 == cell.1
                },
        decreases pieces@.len() - i,
    {
        assert(texts(pieces@)[i as int] == pieces@[i as int]@);
        cells.push((pieces[i], places[i].0, places[i].1));
        i += 1;
    }
    assert(texts(pieces@).len() == pieces@.len());
    (cells, caret)
}

/// Advances the prediction origin past `confirmed` (the graphemes the
/// remote echoed), following the same wrapping rule as layout_cells
pub fn advance_origin(origin: (i64, i64), confirmed: &str, cols: i64) -> (r: (i64, i64))
    requires
        3 * confirmed@.len() < i64::MAX,
        origin.0 + 3 * confirmed@.len() < i64::MAX,
        origin.1 + 3 * confirmed@.len() < i64::MAX,
    ensures
        ({
            let caret = caret_after(
                cell_widths(graphemes(confirmed@)),
                origin.0 as int,
                cols as int,
            );
            r.0 == caret.0 && r.1 == origin.1 + caret.1
        }),
{
    let pieces = graphemes_of(confirmed);
    let widths = widths_of(&pieces);
    let (_, caret) = place_cells(&widths, origin.0, cols);
    proof {
        let n = widths@.len() as int;
        lemma_pen_bounds(widths@, n, origin.0 as int, cols as int);
        assert(widths@.take(n) =~= widths@);
    }
    (caret.0, origin.1 + caret.1)
}

// ---------------------------------------------------------------------------
// Keeping the prediction
// ---------------------------------------------------------------------------

/// The state after `typed` was sent while the cursor stood at `cursor`: text
/// is appended, a backspace takes the last grapheme back, and what cannot be
/// predicted discards the prediction.
pub open spec fn committed(
    state: PredictionView,
    typed: Seq<char>,
    kind: CommitKind,
    cursor: (i64, i64),
) -> PredictionView {
    match kind {
        CommitKind::Append => PredictionView {
            origin: if state.text.len() == 0 {
                cursor
            } else {
                state.origin
            },
            ..changed(state, state.text + typed)
        },
        CommitKind::Backspace => if state.text.len() > 0 {
            changed(state, concat(graphemes(state.text).drop_last()))
        } else {
            discarded(state)
        },
        CommitKind::Control => discarded(state),
    }
}

/// The state after the screen has confirmed the first `n` graphemes: they are
/// no prediction anymore, and the others may be shown.
pub open spec fn confirmed_first(state: PredictionView, n: int, cols: int) -> PredictionView {
    if n == 0 {
        state
    } else {
        let pieces = graphemes(state.text);
        let caret = caret_after(cell_widths(pieces.take(n)), state.origin.0 as int, cols);
        PredictionView {
            origin: (caret.0 as i64, (state.origin.1 + caret.1) as i64),
            unlocked: true,
            ..changed(state, concat(pieces.skip(n)))
        }
    }
}

/// Whether a prediction can be laid out in 64 bit columns and rows.
pub open spec fn can_be_placed(state: PredictionView) -> bool {
    &&& 3 * state.text.len() < i64::MAX
    &&& state.origin.0 + 3 * state.text.len() < i64::MAX
    &&& state.origin.1 + 3 * state.text.len() < i64::MAX
}

impl PredictionState {
    /// `typed` was sent while the cursor of the screen stood at `cursor`.
    pub fn commit(&mut self, typed: &str, cursor: (i64, i64))
        requires
            old(self).generation < u64::MAX,
        ensures
            final(self)@ == committed(
                old(self)@,
                typed@,
                commit_kind(typed@, graphemes(typed@).len()),
                cursor,
            ),
    {
        match classify_commit(typed) {
            CommitKind::Append => {
                if self.text.as_str().is_empty() {
                    self.origin = cursor;
                }
                self.text.append(typed);
                self.generation += 1;
            },
            CommitKind::Backspace => {
                if pop_grapheme(&mut self.text) {
                    self.generation += 1;
                } else {
                    self.discard();
                }
            },
            CommitKind::Control => self.discard(),
        }
    }

    /// Whether the prediction can be laid out in 64 bit columns and rows.
    pub fn fits(&self) -> (r: bool)
        ensures
            r == can_be_placed(self@),
    {
        let count: usize = chars_of(self.text.as_str()).len();
        if count as u64 > (i64::MAX as u64) / 3 {
            return false;
        }
        let cells: i64 = 3 * (count as i64);
        let limit: i64 = i64::MAX - cells;
        self.origin.0 < limit && self.origin.1 < limit
    }

    /// Takes what `screen`, read from the origin on, confirms off the
    /// prediction.
    pub fn reconcile(&mut self, screen: &str, cols: i64)
        requires
            old(self).generation < u64::MAX,
            can_be_placed(old(self)@),
        ensures
            final(self)@ == confirmed_first(
                old(self)@,
                agreement(on_screen(graphemes(screen@)), graphemes(old(self).text@)) as int,
                cols as int,
            ),
    {
        let shown = graphemes_of(screen);
        let pieces = graphemes_of(self.text.as_str());
        let ghost all = texts(pieces@);
        let n: usize = confirmed_pieces(&shown, &pieces);
        if n == 0 {
            return ;
        }
        let echoed = append_pieces(&pieces, 0, n);
        let rest = append_pieces(&pieces, n, pieces.len());
        proof {
            assert(all.subrange(0, n as int) =~= all.take(n as int));
            assert(all.subrange(n as int, all.len() as int) =~= all.skip(n as int));
            lemma_concat_len(all, n as int);
        }
        self.origin = advance_origin(self.origin, echoed.as_str(), cols);
        self.text = rest;
        self.display_unlocked = true;
        self.generation += 1;
    }

    /// The prediction of `generation` was not confirmed in time: it is
    /// discarded, unless the state has changed since.
    pub fn expire(&mut self, generation: u64) -> (r: bool)
        requires
            old(self).generation < u64::MAX,
        ensures
            r == (old(self).generation == generation),
            final(self)@ == (if r {
                discarded(old(self)@)
            } else {
                old(self)@
            }),
            (final(self)@, r) == expired(old(self)@, generation),
    {
        if self.generation == generation {
            self.discard();
            true
        } else {
            false
        }
    }

    /// Whether there is a prediction that may be shown.
    pub fn is_visible(&self) -> (r: bool)
        ensures
            r == (self@.unlocked && self@.text.len() > 0),
    {
        self.display_unlocked && !self.text.as_str().is_empty()
    }
}

// ---------------------------------------------------------------------------
// Laws
// ---------------------------------------------------------------------------

/// What is typed stays hidden until the remote has echoed some of it: neither
/// typing nor discarding unlocks the display, a confirmation does.
pub proof fn law_unechoed_input_stays_hidden(
    state: PredictionView,
    typed: Seq<char>,
    kind: CommitKind,
    cursor: (i64, i64),
    n: int,
    cols: int,
)
    requires
        0 <= n,
    ensures
        !discarded(state).unlocked,
        committed(state, typed, kind, cursor).unlocked ==> state.unlocked,
        confirmed_first(state, n, cols).unlocked == (state.unlocked || n > 0),
{
}

proof fn lemma_on_screen_concat(a: Seq<Seq<char>>, b: Seq<Seq<char>>)
    ensures
        on_screen(a + b) == on_screen(a) + on_screen(b),
    decreases a.len(),
{
    if a.len() == 0 {
        assert(a + b =~= b);
        assert(on_screen(a) + on_screen(b) =~= on_screen(b));
    } else {
        assert((a + b).skip(1) =~= a.skip(1) + b);
        lemma_on_screen_concat(a.skip(1), b);
        assert(on_screen(a + b) =~= on_screen(a) + on_screen(b));
    }
}

/// The ends of the rows are transparent: the screen confirms what it would
/// confirm without them.
pub proof fn law_row_ends_are_transparent(
    before: Seq<Seq<char>>,
    row_end: Seq<char>,
    behind: Seq<Seq<char>>,
    prediction: Seq<Seq<char>>,
)
    requires
        ends_row(row_end),
    ensures
        agreement(on_screen(before + seq![row_end] + behind), prediction) == agreement(
            on_screen(before + behind),
            prediction,
        ),
{
    let one = seq![row_end];
    assert(before + one + behind =~= before + (one + behind));
    lemma_on_screen_concat(before, one + behind);
    lemma_on_screen_concat(before, behind);
    assert((one + behind).skip(1) =~= behind);
    assert((one + behind)[0] == row_end);
}

proof fn lemma_pen_continues(a: Seq<i64>, b: Seq<i64>, origin_col: int, cols: int)
    requires
        cols >= 1,
        forall|i: int| 0 <= i < b.len() ==> 1 <= #[trigger] b[i] <= cols,
        b.len() > 0,
    ensures
        ({
            let caret = caret_after(a, origin_col, cols);
            let rest = pen_after(b, caret.0, cols);
            pen_after(a + b, origin_col, cols) == (rest.0, caret.1 + rest.1)
        }),
    decreases b.len(),
{
    let front = b.drop_last();
    assert((a + b).drop_last() =~= a + front);
    assert((a + b).last() == b.last());
    if front.len() == 0 {
        let caret = caret_after(a, origin_col, cols);
        assert(a + front =~= a);
        assert(1 <= b[0] <= cols);
        assert(pen_after(front, caret.0, cols) == (caret.0, 0int));
    } else {
        assert forall|i: int| 0 <= i < front.len() implies 1 <= #[trigger] front[i] <= cols by {
            assert(front[i] == b[i]);
        }
        lemma_pen_continues(a, front, origin_col, cols);
    }
}

/// An echo that arrives in parts leads to the origin that it leads to when it
/// arrives at once, as long as nothing is wider than a row.
pub proof fn law_echo_in_parts(a: Seq<i64>, b: Seq<i64>, origin_col: int, cols: int)
    requires
        cols >= 1,
        forall|i: int| 0 <= i < b.len() ==> 1 <= #[trigger] b[i] <= cols,
    ensures
        ({
            let first = caret_after(a, origin_col, cols);
            let second = caret_after(b, first.0, cols);
            caret_after(a + b, origin_col, cols) == (second.0, first.1 + second.1)
        }),
{
    if b.len() == 0 {
        assert(a + b =~= a);
    } else {
        lemma_pen_continues(a, b, origin_col, cols);
    }
}

/// No two graphemes share a cell, and none reaches past the last column: a
/// grapheme starts behind the one before it in the same row, or in the first
/// column of the next one.
pub proof fn law_cells_are_in_order(widths: Seq<i64>, i: int, origin_col: int, cols: int)
    requires
        0 <= i < widths.len() - 1,
    ensures
        ({
            let cell = cell_of(widths, i, origin_col, cols);
            let next = cell_of(widths, i + 1, origin_col, cols);
            ||| next == (cell.0 + widths[i], cell.1) && next.0 + widths[i + 1] <= cols
            ||| next == (0int, cell.1 + 1)
        }),
{
    assert(widths.take(i + 1).drop_last() =~= widths.take(i));
}

proof fn lemma_agreement(a: Seq<Seq<char>>, b: Seq<Seq<char>>)
    ensures
        agreement(a, b) <= a.len(),
        agreement(a, b) <= b.len(),
        a.take(agreement(a, b) as int) == b.take(agreement(a, b) as int),
        agreement(a, b) < a.len() && agreement(a, b) < b.len() ==> a[agreement(a, b) as int]
            != b[agreement(a, b) as int],
    decreases a.len(),
{
    let n = agreement(a, b) as int;
    if n > 0 {
        lemma_agreement(a.skip(1), b.skip(1));
        assert forall|i: int| 0 <= i < n implies a[i] == b[i] by {
            if i > 0 {
                assert(a.skip(1).take(n - 1)[i - 1] == b.skip(1).take(n - 1)[i - 1]);
            }
        }
    }
    assert(a.take(n) =~= b.take(n));
}

/// What is confirmed is exactly the longest beginning of the prediction that
/// the screen shows too.
pub proof fn law_confirmation_is_the_longest_prefix(
    screen: Seq<Seq<char>>,
    prediction: Seq<Seq<char>>,
)
    ensures
        ({
            let shown = on_screen(screen);
            let n = agreement(shown, prediction) as int;
            &&& n <= shown.len()
            &&& n <= prediction.len()
            &&& shown.take(n) == prediction.take(n)
            &&& n < shown.len() && n < prediction.len() ==> shown[n] != prediction[n]
        }),
{
    lemma_agreement(on_screen(screen), prediction);
}

/// Whether the text holds a character between U+0000 and U+001F or between
/// U+007F and U+009F.
pub open spec fn holds_control(text: Seq<char>) -> bool {
    exists|i: int|
        0 <= i < text.len() && ((#[trigger] text[i]) as u32 <= 0x1f
            || 0x7f <= text[i] as u32 <= 0x9f)
}

/// What a chunk means depends on what it holds: a delete or backspace
/// character by itself takes the last grapheme back; anything else that holds
/// a control character, that is empty or that has more than 64 graphemes
/// cannot be predicted; all other text is appended.
pub proof fn law_only_printable_text_is_predicted(text: Seq<char>, count: nat)
    ensures
        commit_kind(seq!['\u{7f}'], count) == CommitKind::Backspace,
        commit_kind(seq!['\u{8}'], count) == CommitKind::Backspace,
        text != seq!['\u{7f}'] && text != seq!['\u{8}'] ==> {
            &&& commit_kind(text, count) != CommitKind::Backspace
            &&& holds_control(text) ==> commit_kind(text, count) == CommitKind::Control
            &&& text.len() == 0 ==> commit_kind(text, count) == CommitKind::Control
            &&& count > 64 ==> commit_kind(text, count) == CommitKind::Control
            &&& text.len() > 0 && !holds_control(text) && count <= 64 ==> commit_kind(text, count)
                == CommitKind::Append
        },
{
    assert(!(text.len() > 0 && !holds_control(text)) || forall|i: int|
        0 <= i < text.len() ==> !is_control(#[trigger] text[i])) by {
        if text.len() > 0 && !holds_control(text) {
            assert forall|i: int| 0 <= i < text.len() implies !is_control(#[trigger] text[i]) by {
                assert(!(text[i] as u32 <= 0x1f || 0x7f <= text[i] as u32 <= 0x9f));
            }
        }
    }
    if holds_control(text) {
        let i = choose|i: int|
            0 <= i < text.len() && ((#[trigger] text[i]) as u32 <= 0x1f
                || 0x7f <= text[i] as u32 <= 0x9f);
        assert(is_control(text[i]));
    }
}

proof fn lemma_concat_members(pieces: Seq<Seq<char>>, n: int, i: int)
    requires
        0 <= n <= pieces.len(),
        0 <= i < concat(pieces.take(n)).len(),
    ensures
        i < concat(pieces).len(),
        concat(pieces)[i] == concat(pieces.take(n))[i],
{
    lemma_concat_split(pieces, n);
}

/// A prediction never holds a control character: it has none at first, and
/// neither typing nor discarding nor a confirmation brings one in.
pub proof fn law_predictions_are_printable(
    state: PredictionView,
    typed: Seq<char>,
    count: nat,
    cursor: (i64, i64),
    n: int,
    cols: int,
)
    requires
        !holds_control(state.text),
        concat(graphemes(state.text)) == state.text,
        0 <= n <= graphemes(state.text).len(),
    ensures
        !holds_control(committed(state, typed, commit_kind(typed, count), cursor).text),
        !holds_control(discarded(state).text),
        !holds_control(confirmed_first(state, n, cols).text),
{
    let kind = commit_kind(typed, count);
    let after = committed(state, typed, kind, cursor).text;
    law_only_printable_text_is_predicted(typed, count);
    let pieces = graphemes(state.text);
    assert forall|i: int| 0 <= i < after.len() implies !((#[trigger] after[i]) as u32 <= 0x1f
        || 0x7f <= after[i] as u32 <= 0x9f) by {
        if kind == CommitKind::Append {
            if i < state.text.len() {
                assert(after[i] == state.text[i]);
            } else {
                assert(after[i] == typed[i - state.text.len()]);
            }
        } else if kind == CommitKind::Backspace && state.text.len() > 0 {
            if pieces.len() > 0 {
                assert(pieces.drop_last() =~= pieces.take(pieces.len() - 1));
                lemma_concat_members(pieces, pieces.len() - 1, i);
                assert(after[i] == state.text[i]);
            }
        }
    }
    let left = confirmed_first(state, n, cols).text;
    lemma_concat_split(pieces, n);
    assert forall|i: int| 0 <= i < left.len() implies !((#[trigger] left[i]) as u32 <= 0x1f
        || 0x7f <= left[i] as u32 <= 0x9f) by {
        if n > 0 {
            assert(left[i] == state.text[concat(pieces.take(n)).len() + i]);
        } else {
            assert(left[i] == state.text[i]);
        }
    }
}

/// What is typed piece by piece is predicted as if it had been typed at once:
/// the prediction grows at its end, and starts where the cursor stood when the
/// first of it was typed.
pub proof fn law_typing_adds_up(
    state: PredictionView,
    first: Seq<char>,
    second: Seq<char>,
    cursor: (i64, i64),
    later: (i64, i64),
)
    requires
        first.len() > 0,
        state.generation + 2 <= u64::MAX,
    ensures
        ({
            let one = committed(state, first, CommitKind::Append, cursor);
            let two = committed(one, second, CommitKind::Append, later);
            &&& one.text == state.text + first
            &&& two.text == state.text + first + second
            &&& one.origin == (if state.text.len() == 0 {
                cursor
            } else {
                state.origin
            })
            &&& two.origin == one.origin
            &&& two.unlocked == state.unlocked
            &&& one.generation == state.generation + 1
            &&& two.generation == state.generation + 2
        }),
{
}

/// What cannot be predicted empties the prediction and locks the display, and
/// so does a backspace where there is nothing to take back; every change is of
/// a new generation.
pub proof fn law_unpredictable_input_discards(
    state: PredictionView,
    typed: Seq<char>,
    cursor: (i64, i64),
)
    requires
        state.generation < u64::MAX,
    ensures
        ({
            let after = committed(state, typed, CommitKind::Control, cursor);
            &&& after.text.len() == 0
            &&& !after.unlocked
            &&& after.generation == state.generation + 1
            &&& discarded(state) == after
            &&& state.text.len() == 0 ==> committed(state, typed, CommitKind::Backspace, cursor)
                == after
        }),
{
}

/// A confirmation moves what it confirms from the prediction to the screen:
/// the confirmed graphemes and what is left make up the prediction as it was,
/// what is left starts behind them, and may be shown. Nothing confirmed,
/// nothing changed.
pub proof fn law_confirmation_keeps_the_rest(state: PredictionView, n: int, cols: int)
    requires
        concat(graphemes(state.text)) == state.text,
        0 <= n <= graphemes(state.text).len(),
        state.generation < u64::MAX,
    ensures
        n == 0 ==> confirmed_first(state, n, cols) == state,
        ({
            let after = confirmed_first(state, n, cols);
            &&& concat(graphemes(state.text).take(n)) + after.text == state.text
            &&& n > 0 ==> after.unlocked && after.generation == state.generation + 1
            &&& n > 0 ==> {
                let cell = cell_of(
                    cell_widths(graphemes(state.text)),
                    n - 1,
                    state.origin.0 as int,
                    cols,
                );
                let end = cell.0 + cell_widths(graphemes(state.text))[n - 1];
                &&& end < cols ==> after.origin == (end as i64, (state.origin.1 + cell.1) as i64)
                &&& end >= cols ==> after.origin == (0i64, (state.origin.1 + cell.1 + 1) as i64)
            }
        }),
{
    let pieces = graphemes(state.text);
    lemma_concat_split(pieces, n);
    if n == 0 {
        assert(pieces.take(0) =~= Seq::empty());
        assert(concat(pieces.take(0)) + state.text =~= state.text);
    } else {
        let all = cell_widths(pieces);
        let front = cell_widths(pieces.take(n));
        assert(front =~= all.take(n));
        law_rows_break_where_they_are_full(front, n - 1, state.origin.0 as int, cols);
        assert(front.take(n - 1) =~= all.take(n - 1));
    }
}

/// Every grapheme takes as many cells as it is wide, and at least one.
pub proof fn law_no_grapheme_vanishes(grapheme: Seq<char>)
    ensures
        cell_width(grapheme) >= 1,
        display_width(grapheme) >= 1 ==> cell_width(grapheme) == display_width(grapheme),
        display_width(grapheme) == 0 ==> cell_width(grapheme) == 1,
{
}

/// Graphemes stand one behind the other: the first at the origin, each other
/// one behind the one before it, and the caret behind the last. What would
/// reach past the last column starts the next row, and nothing else does; the
/// caret does so once the row is full.
pub proof fn law_rows_break_where_they_are_full(
    widths: Seq<i64>,
    i: int,
    origin_col: int,
    cols: int,
)
    requires
        0 <= i < widths.len(),
    ensures
        ({
            let cell = cell_of(widths, i, origin_col, cols);
            let pen: (int, int) = if i == 0 {
                (origin_col, 0int)
            } else {
                let before = cell_of(widths, i - 1, origin_col, cols);
                (before.0 + widths[i - 1], before.1)
            };
            &&& pen.0 + widths[i] <= cols ==> cell == pen
            &&& pen.0 + widths[i] > cols ==> cell == (0int, pen.1 + 1)
        }),
        ({
            let last = cell_of(widths, widths.len() - 1, origin_col, cols);
            let end = last.0 + widths.last();
            let caret = caret_after(widths, origin_col, cols);
            &&& end < cols ==> caret == (end, last.1)
            &&& end >= cols ==> caret == (0int, last.1 + 1)
        }),
{
    assert(widths.take(0) =~= Seq::empty());
    if i > 0 {
        assert(widths.take(i).drop_last() =~= widths.take(i - 1));
    }
    assert(widths.drop_last() =~= widths.take(widths.len() - 1));
}

/// Row ends are a line feed, a carriage return, or both as one grapheme, and
/// nothing else: a screen without them counts as it is, spaces included.
pub proof fn law_everything_else_on_the_screen_counts(screen: Seq<Seq<char>>)
    requires
        forall|i: int|
            0 <= i < screen.len() ==> (#[trigger] screen[i]) != seq!['\n'] && screen[i]
                != seq!['\r']
                && screen[i] != seq!['\r', '\n'],
    ensures
        on_screen(screen) == screen,
        ends_row(seq!['\n']) && ends_row(seq!['\r']) && ends_row(seq!['\r', '\n']),
    decreases screen.len(),
{
    if screen.len() > 0 {
        assert(screen[0] != seq!['\n']);
        let rest = screen.skip(1);
        assert forall|i: int| 0 <= i < rest.len() implies (#[trigger] rest[i]) != seq!['\n']
            && rest[i] != seq!['\r'] && rest[i] != seq!['\r', '\n'] by {
            assert(screen[i + 1] != seq!['\n']);
        }
        law_everything_else_on_the_screen_counts(rest);
        assert(seq![screen[0]] + rest =~= screen);
    } else {
        assert(on_screen(screen) =~= screen);
    }
}

/// An offset cuts the text between two graphemes: in front of it stand the
/// bytes of the graphemes that were counted, behind it those of the others. An
/// offset past the last grapheme is the end of the text.
pub proof fn law_offsets_cut_between_graphemes(pieces: Seq<Seq<char>>, count: int)
    requires
        0 <= count,
    ensures
        count <= pieces.len() ==> {
            let bytes = encode_utf8(concat(pieces));
            let offset = byte_offset(pieces, count) as int;
            &&& 0 <= offset <= bytes.len()
            &&& bytes.take(offset) == encode_utf8(concat(pieces.take(count)))
            &&& bytes.skip(offset) == encode_utf8(concat(pieces.skip(count)))
        },
        count >= pieces.len() ==> byte_offset(pieces, count) == encode_utf8(concat(pieces)).len(),
        byte_offset(pieces, 0) == 0,
{
    if count <= pieces.len() {
        lemma_concat_split(pieces, count);
        let front = concat(pieces.take(count));
        let back = concat(pieces.skip(count));
        lemma_encode_concat(front, back);
        assert((encode_utf8(front) + encode_utf8(back)).take(encode_utf8(front).len() as int)
            =~= encode_utf8(front));
        assert((encode_utf8(front) + encode_utf8(back)).skip(encode_utf8(front).len() as int)
            =~= encode_utf8(back));
    }
    assert(pieces.take(pieces.len() as int) =~= pieces);
    assert(pieces.take(0) =~= Seq::empty());
}

/// What the timer of a generation does.
pub open spec fn expired(state: PredictionView, generation: u64) -> (PredictionView, bool) {
    if state.generation == generation {
        (discarded(state), true)
    } else {
        (state, false)
    }
}

/// A timer that was started for a prediction does not touch a later one: what
/// is typed, confirmed or discarded in the meantime lets it pass. Where nothing
/// happened, it empties the prediction, and a second one finds nothing to do.
pub proof fn law_timers_leave_later_predictions(
    state: PredictionView,
    typed: Seq<char>,
    kind: CommitKind,
    cursor: (i64, i64),
    n: int,
    cols: int,
)
    requires
        state.generation < u64::MAX,
    ensures
        ({
            let later = committed(state, typed, kind, cursor);
            expired(later, state.generation) == (later, false)
        }),
        n > 0 ==> {
            let later = confirmed_first(state, n, cols);
            expired(later, state.generation) == (later, false)
        },
        ({
            let (after, done) = expired(state, state.generation);
            &&& done
            &&& after.text.len() == 0
            &&& !after.unlocked
            &&& expired(after, state.generation) == (after, false)
        }),
{
}

} // verus!
