//! What a terminal of a Tmux pane does with the output of the pane.

use vstd::prelude::*;
use vstd::slice::slice_subrange;
use vstd::utf8::{encode_utf8, is_ascii_chars, is_ascii_chars_encode_utf8};

use crate::text::{decimal, digit_char, push_decimal};
use crate::tmux_api::notices::lemma_decimal_written;
use crate::tmux_api::receive::digits_value;

verus! {

// ---------------------------------------------------------------------------
// Mouse tracking
// ---------------------------------------------------------------------------

/// An escape sequence this long is not a DECSET we care about; stop holding
/// it back and pass it through
pub const MAX_ESCAPE_HOLD: usize = 64;

/// DECSET/DECRST parameters that switch a terminal into mouse tracking
/// (X10, normal, button-event, any-event tracking and the UTF-8/SGR/urxvt/
/// SGR-pixel encodings): 9, 1000 to 1003, 1005, 1006, 1015 and 1016
pub open spec fn mouse_param(param: Seq<u8>) -> bool {
    ||| param == seq![57u8]
    ||| param == seq![49u8, 48, 48, 48]
    ||| param == seq![49u8, 48, 48, 49]
    ||| param == seq![49u8, 48, 48, 50]
    ||| param == seq![49u8, 48, 48, 51]
    ||| param == seq![49u8, 48, 48, 53]
    ||| param == seq![49u8, 48, 48, 54]
    ||| param == seq![49u8, 48, 49, 53]
    ||| param == seq![49u8, 48, 49, 54]
}

/// Whether the parameter switches a terminal into mouse tracking.
pub fn is_mouse_tracking_param(param: &[u8]) -> (r: bool)
    ensures
        r == mouse_param(param@),
{
    if param.len() == 1 {
        let r = param[0] == 57;
        assert(r ==> param@ =~= seq![57u8]);
        return r;
    }
    if param.len() != 4 || param[0] != 49 || param[1] != 48 {
        return false;
    }
    let third: u8 = param[2];
    let last: u8 = param[3];
    assert(param@ =~= seq![49u8, 48, third, last]);
    if third == 48 {
        last == 48 || last == 49 || last == 50 || last == 51 || last == 53 || last == 54
    } else {
        third == 49 && (last == 53 || last == 54)
    }
}

/// Length of the parameter at the start of `params`.
pub open spec fn param_len(params: Seq<u8>) -> int
    decreases params.len(),
{
    if params.len() == 0 || params[0] == 59 {
        0
    } else {
        1 + param_len(params.skip(1))
    }
}

/// The parameters, separated by semicolons, that have nothing to do with
/// mouse tracking.
pub open spec fn kept_params(params: Seq<u8>) -> Seq<Seq<u8>>
    decreases params.len(),
{
    let n = param_len(params);
    let head = params.take(n);
    let rest = if 0 <= n < params.len() {
        kept_params(params.skip(n + 1))
    } else {
        Seq::empty()
    };
    if mouse_param(head) {
        rest
    } else {
        seq![head] + rest
    }
}

/// The parameters, separated by semicolons.
pub open spec fn params_joined(params: Seq<Seq<u8>>) -> Seq<u8>
    decreases params.len(),
{
    if params.len() == 0 {
        Seq::empty()
    } else if params.len() == 1 {
        params[0]
    } else {
        params_joined(params.drop_last()) + seq![59u8] + params.last()
    }
}

/// What a private mode set/reset starts with: ESC [ ?
pub open spec fn mode_start() -> Seq<u8> {
    seq![27u8, 91, 63]
}

/// What a private mode set/reset becomes: it keeps the parameters that have
/// nothing to do with mouse tracking, and vanishes where there are none.
pub open spec fn mode_request(params: Seq<u8>, final_byte: u8) -> Seq<u8> {
    if kept_params(params).len() == 0 {
        Seq::empty()
    } else {
        mode_start() + params_joined(kept_params(params)) + seq![final_byte]
    }
}

/// Number of bytes at the start of `s` that can be parameters: digits and
/// semicolons.
pub open spec fn params_len(s: Seq<u8>) -> int
    decreases s.len(),
{
    if s.len() > 0 && (48 <= s[0] <= 57 || s[0] == 59) {
        1 + params_len(s.skip(1))
    } else {
        0
    }
}

/// Output with mouse tracking requests removed, and the incomplete sequence
/// at its end that the next output continues.
#[verifier::ext_equal]
pub struct Filtered {
    pub output: Seq<u8>,
    pub pending: Seq<u8>,
}

/// `front` before what was filtered.
pub open spec fn behind(front: Seq<u8>, rest: Filtered) -> Filtered {
    Filtered { output: front + rest.output, pending: rest.pending }
}

/// Position of the final byte of the private sequence at the start of `s`.
pub open spec fn sequence_end(s: Seq<u8>) -> int {
    if s.len() >= 3 {
        3 + params_len(s.skip(3))
    } else {
        s.len() as int
    }
}

/// Removes the mouse tracking requests from `s`. An escape character inside a
/// private sequence starts another one.
pub open spec fn filtered(s: Seq<u8>) -> Filtered
    decreases s.len(),
{
    if s.len() == 0 {
        Filtered { output: Seq::empty(), pending: Seq::empty() }
    } else if s[0] != 27 {
        behind(seq![s[0]], filtered(s.skip(1)))
    } else if s.len() >= 2 && s[1] != 91 {
        behind(seq![27u8], filtered(s.skip(1)))
    } else if s.len() >= 3 && s[2] != 63 {
        behind(seq![27u8, 91], filtered(s.skip(2)))
    } else {
        let end = sequence_end(s);
        if 0 < end < s.len() {
            if s[end] == 104 || s[end] == 108 {
                behind(mode_request(s.subrange(3, end), s[end]), filtered(s.skip(end + 1)))
            } else if s[end] == 27 {
                behind(s.take(end), filtered(s.skip(end)))
            } else {
                behind(s.take(end + 1), filtered(s.skip(end + 1)))
            }
        } else if s.len() < MAX_ESCAPE_HOLD {
            Filtered { output: Seq::empty(), pending: s }
        } else {
            Filtered { output: s, pending: Seq::empty() }
        }
    }
}

proof fn lemma_param_len(params: Seq<u8>, n: int)
    requires
        0 <= n <= params.len(),
        forall|i: int| 0 <= i < n ==> #[trigger] params[i] != 59,
        n == params.len() || params[n] == 59,
    ensures
        param_len(params) == n,
    decreases n,
{
    if n > 0 {
        assert(params[0] != 59);
        assert forall|i: int| 0 <= i < n - 1 implies #[trigger] params.skip(1)[i] != 59 by {
            assert(params[i + 1] != 59);
        }
        lemma_param_len(params.skip(1), n - 1);
    }
}

/// The end of the parameter that starts at `from`.
fn find_param_end(params: &[u8], from: usize) -> (end: usize)
    requires
        from <= params@.len(),
    ensures
        from <= end <= params@.len(),
        end - from == param_len(params@.skip(from as int)),
{
    let mut i: usize = from;
    while i < params.len() && params[i] != 59
        invariant
            from <= i <= params@.len(),
            forall|j: int| from <= j < i ==> #[trigger] params@[j] != 59,
        ensures
            i == params@.len() || params@[i as int] == 59,
        decreases params@.len() - i,
    {
        i += 1;
    }
    proof {
        let rest = params@.skip(from as int);
        assert forall|j: int| 0 <= j < i - from implies #[trigger] rest[j] != 59 by {
            assert(params@[from + j] != 59);
        }
        lemma_param_len(rest, i - from);
    }
    i
}

/// The parameters that are kept, separated by semicolons; `None` where there
/// are none.
fn filter_params(params: &[u8]) -> (r: Option<Vec<u8>>)
    ensures
        r is None <==> kept_params(params@).len() == 0,
        r matches Some(text) ==> text@ == params_joined(kept_params(params@)),
{
    let ghost whole = kept_params(params@);
    let ghost mut done: Seq<Seq<u8>> = Seq::empty();
    let mut text: Vec<u8> = Vec::new();
    let mut any = false;
    let mut at: usize = 0;
    proof {
        assert(params@.skip(0) =~= params@);
        assert(done + whole =~= whole);
    }
    loop
        invariant
            at <= params@.len(),
            whole == kept_params(params@),
            whole == done + kept_params(params@.skip(at as int)),
            text@ == params_joined(done),
            any == (done.len() > 0),
        decreases params@.len() - at,
    {
        let ghost rest = params@.skip(at as int);
        let end: usize = find_param_end(params, at);
        let param = slice_subrange(params, at, end);
        proof {
            assert(param@ =~= rest.take(end - at));
            if end < params@.len() {
                assert(rest.skip(end - at + 1) =~= params@.skip(end + 1));
            }
        }
        if !is_mouse_tracking_param(param) {
            if any {
                text.push(59);
            }
            text.extend_from_slice(param);
            any = true;
            proof {
                let next = done.push(param@);
                assert(next.drop_last() =~= done);
                assert(text@ =~= params_joined(next));
                let tail = if end < params@.len() {
                    kept_params(params@.skip(end + 1))
                } else {
                    Seq::empty()
                };
                assert(done + (seq![param@] + tail) =~= next + tail);
                done = next;
            }
        }
        if end == params.len() {
            assert(done + Seq::<Seq<u8>>::empty() =~= done);
            return if any {
                Some(text)
            } else {
                None
            };
        }
        at = end + 1;
    }
}

proof fn lemma_params_len(s: Seq<u8>, n: int)
    requires
        0 <= n <= s.len(),
        forall|i: int| 0 <= i < n ==> (48 <= #[trigger] s[i] <= 57 || s[i] == 59),
        n == s.len() || !(48 <= s[n] <= 57 || s[n] == 59),
    ensures
        params_len(s) == n,
    decreases n,
{
    if n > 0 {
        assert(48 <= s[0] <= 57 || s[0] == 59);
        assert forall|i: int| 0 <= i < n - 1 implies (48 <= #[trigger] s.skip(1)[i] <= 57 || s.skip(
            1,
        )[i] == 59) by {
            assert(48 <= s[i + 1] <= 57 || s[i + 1] == 59);
        }
        lemma_params_len(s.skip(1), n - 1);
    }
}

/// The end of the parameters that start at `from`.
fn find_params_end(s: &[u8], from: usize) -> (end: usize)
    requires
        from <= s@.len(),
    ensures
        from <= end <= s@.len(),
        end - from == params_len(s@.skip(from as int)),
{
    let mut i: usize = from;
    while i < s.len() && ((48 <= s[i] && s[i] <= 57) || s[i] == 59)
        invariant
            from <= i <= s@.len(),
            forall|j: int| from <= j < i ==> (48 <= #[trigger] s@[j] <= 57 || s@[j] == 59),
        ensures
            i == s@.len() || !(48 <= s@[i as int] <= 57 || s@[i as int] == 59),
        decreases s@.len() - i,
    {
        i += 1;
    }
    proof {
        let rest = s@.skip(from as int);
        assert forall|j: int| 0 <= j < i - from implies (48 <= #[trigger] rest[j] <= 57 || rest[j]
            == 59) by {
            assert(48 <= s@[from + j] <= 57 || s@[from + j] == 59);
        }
        lemma_params_len(rest, i - from);
    }
    i
}

proof fn lemma_behind(done: Seq<u8>, front: Seq<u8>, rest: Filtered)
    ensures
        behind(done, behind(front, rest)) == behind(done + front, rest),
{
    assert(done + (front + rest.output) =~= done + front + rest.output);
}

/// Filters `input` and returns the output and the start of the incomplete
/// sequence at its end.
fn filter_input(input: &[u8]) -> (r: (Vec<u8>, usize))
    ensures
        r.0@ == filtered(input@).output,
        r.1 <= input@.len(),
        input@.skip(r.1 as int) == filtered(input@).pending,
{
    let mut output: Vec<u8> = Vec::new();
    let mut i: usize = 0;
    proof {
        assert(input@.skip(0) =~= input@);
        assert(behind(output@, filtered(input@)) =~= filtered(input@));
    }
    while i < input.len()
        invariant
            i <= input@.len(),
            filtered(input@) == behind(output@, filtered(input@.skip(i as int))),
        decreases input@.len() - i,
    {
        let ghost rest = input@.skip(i as int);
        let ghost before = output@;
        let left: usize = input.len() - i;
        if input[i] != 27 {
            output.push(input[i]);
            proof {
                assert(rest.skip(1) =~= input@.skip(i + 1));
                lemma_behind(before, seq![rest[0]], filtered(rest.skip(1)));
                assert(output@ =~= before + seq![rest[0]]);
            }
            i += 1;
        } else if left >= 2 && input[i + 1] != 91 {
            output.push(27);
            proof {
                assert(rest.skip(1) =~= input@.skip(i + 1));
                lemma_behind(before, seq![27u8], filtered(rest.skip(1)));
                assert(output@ =~= before + seq![27u8]);
            }
            i += 1;
        } else if left >= 3 && input[i + 2] != 63 {
            output.push(27);
            output.push(91);
            proof {
                assert(rest.skip(2) =~= input@.skip(i + 2));
                lemma_behind(before, seq![27u8, 91], filtered(rest.skip(2)));
                assert(output@ =~= before + seq![27u8, 91]);
            }
            i += 2;
        } else {
            let end: usize = if left >= 3 {
                find_params_end(input, i + 3)
            } else {
                input.len()
            };
            proof {
                if left >= 3 {
                    assert(rest.skip(3) =~= input@.skip(i + 3));
                }
                assert(end - i == sequence_end(rest));
            }
            if end < input.len() {
                let final_byte: u8 = input[end];
                let ghost next = filtered(rest.skip(end - i + 1));
                assert(rest.skip(end - i + 1) =~= input@.skip(end + 1));
                if final_byte == 27 {
                    // The sequence is never finished
                    let sequence = slice_subrange(input, i, end);
                    output.extend_from_slice(sequence);
                    proof {
                        assert(sequence@ =~= rest.take(end - i));
                        assert(rest.skip(end - i) =~= input@.skip(end as int));
                        lemma_behind(before, rest.take(end - i), filtered(rest.skip(end - i)));
                    }
                    i = end;
                    continue;
                }
                if final_byte == 104 || final_byte == 108 {
                    let params = slice_subrange(input, i + 3, end);
                    assert(params@ =~= rest.subrange(3, end - i));
                    if let Some(kept) = filter_params(params) {
                        output.push(27);
                        output.push(91);
                        output.push(63);
                        output.extend_from_slice(kept.as_slice());
                        output.push(final_byte);
                    }
                    proof {
                        let request = mode_request(params@, final_byte);
                        assert(output@ =~= before + request);
                        lemma_behind(before, request, next);
                    }
                } else {
                    let sequence = slice_subrange(input, i, end + 1);
                    output.extend_from_slice(sequence);
                    proof {
                        assert(sequence@ =~= rest.take(end - i + 1));
                        lemma_behind(before, rest.take(end - i + 1), next);
                    }
                }
                i = end + 1;
            } else if left < MAX_ESCAPE_HOLD {
                assert(filtered(rest) == Filtered { output: Seq::empty(), pending: rest });
                assert(before + Seq::<u8>::empty() =~= before);
                return (output, i);
            } else {
                let sequence = slice_subrange(input, i, input.len());
                output.extend_from_slice(sequence);
                assert(sequence@ =~= rest);
                let stop: usize = input.len();
                assert(input@.skip(stop as int) =~= Seq::empty());
                return (output, stop);
            }
        }
    }
    proof {
        assert(output@ + Seq::<u8>::empty() =~= output@);
        assert(input@.skip(i as int) =~= Seq::empty());
    }
    (output, i)
}

/// Removes mouse tracking DECSET/DECRST requests (e.g. \x1b[?1002;1006h)
/// from a Tmux %output chunk, keeping all other sequences (?2004 bracketed
/// paste, ?1049 alternate screen, ...) intact. A sequence may be split
/// across chunks; the incomplete tail is stashed in `pending` and processed
/// together with the next chunk.
pub fn filter_mouse_tracking(pending: &mut Vec<u8>, chunk: &[u8]) -> (output: Vec<u8>)
    ensures
        output@ == filtered(old(pending)@ + chunk@).output,
        final(pending)@ == filtered(old(pending)@ + chunk@).pending,
{
    let mut input: Vec<u8> = Vec::new();
    input.append(pending);
    input.extend_from_slice(chunk);
    assert(input@ =~= old(pending)@ + chunk@);
    let (output, start) = filter_input(input.as_slice());
    let tail = slice_subrange(input.as_slice(), start, input.len());
    assert(tail@ =~= input@.skip(start as int));
    pending.extend_from_slice(tail);
    assert(pending@ =~= tail@);
    output
}

// ---------------------------------------------------------------------------
// Laws of the filter
// ---------------------------------------------------------------------------

proof fn lemma_params_len_bounds(s: Seq<u8>)
    ensures
        0 <= params_len(s) <= s.len(),
        params_len(s) < s.len() ==> !(48 <= s[params_len(s)] <= 57 || s[params_len(s)] == 59),
        forall|i: int|
            0 <= i < params_len(s) ==> (48 <= #[trigger] s[i] <= 57 || s[i] == 59),
    decreases s.len(),
{
    if s.len() > 0 && (48 <= s[0] <= 57 || s[0] == 59) {
        lemma_params_len_bounds(s.skip(1));
        assert forall|i: int| 0 <= i < params_len(s) implies (48 <= #[trigger] s[i] <= 57 || s[i]
            == 59) by {
            if i > 0 {
                assert(s[i] == s.skip(1)[i - 1]);
            }
        }
    }
}

proof fn lemma_sequence_end(s: Seq<u8>)
    requires
        s.len() > 0,
    ensures
        0 < sequence_end(s) <= s.len(),
{
    if s.len() >= 3 {
        lemma_params_len_bounds(s.skip(3));
    }
}

/// Whether an incomplete sequence at the end of `s` is too long to be held
/// back.
pub open spec fn gives_up(s: Seq<u8>) -> bool
    decreases s.len(),
{
    if s.len() == 0 {
        false
    } else if s[0] != 27 || (s.len() >= 2 && s[1] != 91) {
        gives_up(s.skip(1))
    } else if s.len() >= 3 && s[2] != 63 {
        gives_up(s.skip(2))
    } else if 0 < sequence_end(s) < s.len() {
        if s[sequence_end(s)] == 27 {
            gives_up(s.skip(sequence_end(s)))
        } else {
            gives_up(s.skip(sequence_end(s) + 1))
        }
    } else {
        s.len() >= MAX_ESCAPE_HOLD
    }
}

/// Output may be cut into chunks anywhere: filtering chunk after chunk gives
/// what filtering the whole at once gives, as long as no sequence is so long
/// that the filter gives up on it at a cut.
pub proof fn law_chunks_do_not_matter(first: Seq<u8>, second: Seq<u8>)
    requires
        !gives_up(first),
    ensures
        filtered(first + second) == behind(
            filtered(first).output,
            filtered(filtered(first).pending + second),
        ),
    decreases first.len(),
{
    let all = first + second;
    if first.len() == 0 {
        assert(all =~= second);
        assert(filtered(first).pending + second =~= second);
        assert(behind(Seq::empty(), filtered(second)) =~= filtered(second));
    } else if first[0] != 27 || (first.len() >= 2 && first[1] != 91) {
        assert(all.skip(1) =~= first.skip(1) + second);
        law_chunks_do_not_matter(first.skip(1), second);
        lemma_behind(
            seq![first[0]],
            filtered(first.skip(1)).output,
            filtered(filtered(first.skip(1)).pending + second),
        );
    } else if first.len() >= 3 && first[2] != 63 {
        assert(all.skip(2) =~= first.skip(2) + second);
        law_chunks_do_not_matter(first.skip(2), second);
        lemma_behind(
            seq![27u8, 91],
            filtered(first.skip(2)).output,
            filtered(filtered(first.skip(2)).pending + second),
        );
    } else {
        lemma_sequence_end(first);
        let end = sequence_end(first);
        if end < first.len() {
            lemma_params_len_bounds(first.skip(3));
            let params = all.skip(3);
            assert forall|i: int| 0 <= i < end - 3 implies (48 <= #[trigger] params[i] <= 57
                || params[i] == 59) by {
                assert(params[i] == first.skip(3)[i]);
            }
            assert(params[end - 3] == first.skip(3)[end - 3]);
            lemma_params_len(params, end - 3);
            assert(sequence_end(all) == end);
            assert(all.subrange(3, end) =~= first.subrange(3, end));
            assert(all.take(end + 1) =~= first.take(end + 1));
            assert(all.skip(end + 1) =~= first.skip(end + 1) + second);
            assert(all.take(end) =~= first.take(end));
            assert(all.skip(end) =~= first.skip(end) + second);
            let rest = if first[end] == 27 {
                first.skip(end)
            } else {
                first.skip(end + 1)
            };
            law_chunks_do_not_matter(rest, second);
            let front = if first[end] == 104 || first[end] == 108 {
                mode_request(first.subrange(3, end), first[end])
            } else if first[end] == 27 {
                first.take(end)
            } else {
                first.take(end + 1)
            };
            lemma_behind(front, filtered(rest).output, filtered(filtered(rest).pending + second));
        } else {
            assert(behind(Seq::empty(), filtered(all)) =~= filtered(all));
        }
    }
}

/// Whether one of the parameters, separated by semicolons, goes from `a` up to
/// `b`.
pub open spec fn param_between(params: Seq<u8>, a: int, b: int) -> bool {
    &&& 0 <= a <= b <= params.len()
    &&& a == 0 || params[a - 1] == 59
    &&& b == params.len() || params[b] == 59
    &&& forall|i: int| a <= i < b ==> #[trigger] params[i] != 59
}

/// Whether one of the parameters asks for mouse tracking.
pub open spec fn has_mouse_param(params: Seq<u8>) -> bool {
    exists|a: int, b: int| #[trigger]
        param_between(params, a, b) && mouse_param(params.subrange(a, b))
}

/// Whether a complete private mode set/reset stands in `s`, from `i` to its
/// final byte at `end`, that asks for mouse tracking among other things.
pub open spec fn mouse_request_at(s: Seq<u8>, i: int, end: int) -> bool {
    &&& 0 <= i
    &&& i + 3 <= end < s.len()
    &&& s.subrange(i, i + 3) == mode_start()
    &&& forall|j: int| i + 3 <= j < end ==> (48 <= #[trigger] s[j] <= 57 || s[j] == 59)
    &&& s[end] == 104 || s[end] == 108
    &&& has_mouse_param(s.subrange(i + 3, end))
}

/// Whether `s` holds a complete request for mouse tracking.
pub open spec fn asks_for_mouse(s: Seq<u8>) -> bool {
    exists|i: int, end: int| #[trigger] mouse_request_at(s, i, end)
}

proof fn lemma_param_len_bounds(params: Seq<u8>)
    ensures
        0 <= param_len(params) <= params.len(),
        param_len(params) < params.len() ==> params[param_len(params)] == 59,
        forall|i: int| 0 <= i < param_len(params) ==> #[trigger] params[i] != 59,
    decreases params.len(),
{
    if params.len() > 0 && params[0] != 59 {
        lemma_param_len_bounds(params.skip(1));
        assert forall|i: int| 0 <= i < param_len(params) implies #[trigger] params[i] != 59 by {
            if i > 0 {
                assert(params[i] == params.skip(1)[i - 1]);
            }
        }
    }
}

proof fn lemma_joined_front(head: Seq<u8>, rest: Seq<Seq<u8>>)
    requires
        rest.len() > 0,
    ensures
        params_joined(seq![head] + rest) == head + seq![59u8] + params_joined(rest),
    decreases rest.len(),
{
    let all = seq![head] + rest;
    assert(all.last() == rest.last());
    assert(all.drop_last() =~= seq![head] + rest.drop_last());
    if rest.len() == 1 {
        assert(all.drop_last() =~= seq![head]);
        assert(params_joined(all.drop_last()) == head);
        assert(params_joined(rest) == rest.last());
    } else {
        lemma_joined_front(head, rest.drop_last());
        let middle = params_joined(rest.drop_last());
        assert(head + seq![59u8] + middle + seq![59u8] + rest.last() =~= head + seq![59u8] + (middle
            + seq![59u8] + rest.last()));
    }
}

/// Parameters that do not ask for mouse tracking are all kept.
proof fn lemma_all_params_kept(params: Seq<u8>)
    requires
        !has_mouse_param(params),
    ensures
        kept_params(params).len() > 0,
        params_joined(kept_params(params)) == params,
    decreases params.len(),
{
    lemma_param_len_bounds(params);
    let n = param_len(params);
    let head = params.take(n);
    assert(params.subrange(0, n) =~= head);
    assert(param_between(params, 0, n));
    assert(!mouse_param(head));
    if n < params.len() {
        let behind = params.skip(n + 1);
        if has_mouse_param(behind) {
            let (a, b) = choose|a: int, b: int| #[trigger]
                param_between(behind, a, b) && mouse_param(behind.subrange(a, b));
            assert(params.subrange(n + 1 + a, n + 1 + b) =~= behind.subrange(a, b));
            assert forall|i: int| n + 1 + a <= i < n + 1 + b implies #[trigger] params[i] != 59 by {
                assert(params[i] == behind[i - n - 1]);
            }
            if a > 0 {
                assert(params[n + a] == behind[a - 1]);
            }
            if b < behind.len() {
                assert(params[n + 1 + b] == behind[b]);
            }
            assert(param_between(params, n + 1 + a, n + 1 + b));
        }
        lemma_all_params_kept(behind);
        lemma_joined_front(head, kept_params(behind));
        assert(head + seq![59u8] + behind =~= params);
    } else {
        assert(head =~= params);
        assert(kept_params(params) =~= seq![head]);
    }
}

/// Everything but requests for mouse tracking is kept: output that holds no
/// complete one comes out as it went in, other private modes included.
pub proof fn law_other_output_is_kept(s: Seq<u8>)
    requires
        !asks_for_mouse(s),
    ensures
        filtered(s).output + filtered(s).pending == s,
    decreases s.len(), 0int,
{
    if s.len() == 0 {
        assert(filtered(s).output + filtered(s).pending =~= s);
    } else if s[0] != 27 || (s.len() >= 2 && s[1] != 91) {
        lemma_kept_behind(s, 1, seq![s[0]]);
    } else if s.len() >= 3 && s[2] != 63 {
        lemma_kept_behind(s, 2, seq![27u8, 91]);
    } else {
        lemma_sequence_end(s);
        let end = sequence_end(s);
        if end < s.len() {
            if s[end] == 104 || s[end] == 108 {
                let params = s.subrange(3, end);
                lemma_params_len_bounds(s.skip(3));
                assert(s.subrange(0, 3) =~= mode_start());
                assert forall|j: int| 3 <= j < end implies (48 <= #[trigger] s[j] <= 57 || s[j]
                    == 59) by {
                    assert(s[j] == s.skip(3)[j - 3]);
                }
                if has_mouse_param(params) {
                    assert(mouse_request_at(s, 0, end));
                }
                lemma_all_params_kept(params);
                assert(mode_request(params, s[end]) =~= s.take(end + 1));
                lemma_kept_behind(s, end + 1, s.take(end + 1));
            } else if s[end] == 27 {
                lemma_kept_behind(s, end, s.take(end));
            } else {
                lemma_kept_behind(s, end + 1, s.take(end + 1));
            }
        } else {
            assert(filtered(s).output + filtered(s).pending =~= s);
        }
    }
}

/// What stands behind the first `n` bytes is kept too.
proof fn lemma_kept_behind(s: Seq<u8>, n: int, front: Seq<u8>)
    requires
        0 < n <= s.len(),
        !asks_for_mouse(s),
        front =~= s.take(n),
    ensures
        behind(front, filtered(s.skip(n))).output + behind(front, filtered(s.skip(n))).pending == s,
    decreases s.len() - n, 1int,
{
    let rest = s.skip(n);
    if asks_for_mouse(rest) {
        let (i, end) = choose|i: int, end: int| #[trigger] mouse_request_at(rest, i, end);
        assert(s.subrange(n + i, n + i + 3) =~= rest.subrange(i, i + 3));
        assert(s.subrange(n + i + 3, n + end) =~= rest.subrange(i + 3, end));
        assert forall|j: int| n + i + 3 <= j < n + end implies (48 <= #[trigger] s[j] <= 57 || s[j]
            == 59) by {
            assert(s[j] == rest[j - n]);
        }
        assert(mouse_request_at(s, n + i, n + end));
    }
    law_other_output_is_kept(rest);
    let after = filtered(rest);
    assert(front + after.output + after.pending =~= front + (after.output + after.pending));
    assert(front + rest =~= s);
}

/// An escape character ends whatever was unfinished before it.
proof fn lemma_escape_starts_afresh(before: Seq<u8>, s: Seq<u8>)
    requires
        s.len() > 0,
        s[0] == 27,
    ensures
        filtered(before + s) == behind(
            filtered(before).output + filtered(before).pending,
            filtered(s),
        ),
    decreases before.len(),
{
    let all = before + s;
    if before.len() == 0 {
        assert(all =~= s);
        assert(behind(Seq::<u8>::empty() + Seq::empty(), filtered(s)) =~= filtered(s));
    } else if before[0] != 27 || (before.len() >= 2 && before[1] != 91) {
        assert(all.skip(1) =~= before.skip(1) + s);
        lemma_escape_starts_afresh(before.skip(1), s);
        lemma_afresh_behind(seq![before[0]], filtered(before.skip(1)), filtered(s));
    } else if before.len() >= 3 && before[2] != 63 {
        assert(all.skip(2) =~= before.skip(2) + s);
        lemma_escape_starts_afresh(before.skip(2), s);
        lemma_afresh_behind(seq![27u8, 91], filtered(before.skip(2)), filtered(s));
    } else {
        lemma_sequence_end(before);
        let end = sequence_end(before);
        if before.len() >= 3 {
            lemma_params_len_bounds(before.skip(3));
            let params = all.skip(3);
            assert forall|i: int| 0 <= i < end - 3 implies (48 <= #[trigger] params[i] <= 57
                || params[i] == 59) by {
                assert(params[i] == before.skip(3)[i]);
            }
            if end < before.len() {
                assert(params[end - 3] == before.skip(3)[end - 3]);
            } else {
                assert(params[end - 3] == s[0]);
            }
            lemma_params_len(params, end - 3);
            assert(sequence_end(all) == end);
        }
        if end < before.len() {
            assert(all.subrange(3, end) =~= before.subrange(3, end));
            assert(all.take(end + 1) =~= before.take(end + 1));
            assert(all.take(end) =~= before.take(end));
            assert(all.skip(end + 1) =~= before.skip(end + 1) + s);
            assert(all.skip(end) =~= before.skip(end) + s);
            let rest = if before[end] == 27 {
                before.skip(end)
            } else {
                before.skip(end + 1)
            };
            lemma_escape_starts_afresh(rest, s);
            let front = if before[end] == 104 || before[end] == 108 {
                mode_request(before.subrange(3, end), before[end])
            } else if before[end] == 27 {
                before.take(end)
            } else {
                before.take(end + 1)
            };
            lemma_afresh_behind(front, filtered(rest), filtered(s));
        } else {
            // All of `before` is unfinished
            let n = before.len() as int;
            assert(filtered(before).output + filtered(before).pending =~= before);
            assert(all.skip(n) =~= s);
            assert(all.take(n) =~= before);
            if n == 1 {
                assert(all[1] == s[0]);
                assert(before =~= seq![27u8]);
            } else if n == 2 {
                assert(all[2] == s[0]);
                assert(before =~= seq![27u8, 91]);
            } else {
                assert(all[end] == s[0]);
            }
        }
    }
}

proof fn lemma_afresh_behind(front: Seq<u8>, rest: Filtered, next: Filtered)
    ensures
        behind(front, behind(rest.output + rest.pending, next)) == behind(
            behind(front, rest).output + behind(front, rest).pending,
            next,
        ),
{
    lemma_behind(front, rest.output + rest.pending, next);
    assert(front + (rest.output + rest.pending) =~= front + rest.output + rest.pending);
}

/// A complete private mode set/reset is replaced by what is left of it
/// without its mouse parameters, whatever stands before it: where all of them
/// ask for mouse tracking, it vanishes. A sequence that it interrupts is
/// passed through as far as it goes.
pub proof fn law_mode_requests_are_rewritten(
    before: Seq<u8>,
    params: Seq<u8>,
    final_byte: u8,
    rest: Seq<u8>,
)
    requires
        forall|i: int|
            0 <= i < params.len() ==> (48 <= #[trigger] params[i] <= 57 || params[i] == 59),
        final_byte == 104 || final_byte == 108,
    ensures
        filtered(before + (mode_start() + params + seq![final_byte] + rest)) == behind(
            filtered(before).output + filtered(before).pending,
            behind(mode_request(params, final_byte), filtered(rest)),
        ),
{
    let s = mode_start() + params + seq![final_byte] + rest;
    let tail = s.skip(3);
    assert forall|i: int| 0 <= i < params.len() implies (48 <= #[trigger] tail[i] <= 57 || tail[i]
        == 59) by {
        assert(tail[i] == params[i]);
    }
    assert(tail[params.len() as int] == final_byte);
    lemma_params_len(tail, params.len() as int);
    let end = 3 + params.len() as int;
    assert(sequence_end(s) == end);
    assert(s.subrange(3, end) =~= params);
    assert(s.skip(end + 1) =~= rest);
    lemma_escape_starts_afresh(before, s);
}

// ---------------------------------------------------------------------------
// The terminal
// ---------------------------------------------------------------------------

/// State of the terminal of one pane.
#[derive(Debug)]
pub struct TmuxTerminal {
    id: u32,
    /// Whether the initial output of the pane has arrived
    initial_output: bool,
    /// True while a debounced selection -> Tmux buffer sync is scheduled
    /// (`selection-changed` fires on every pointer motion during a drag)
    selection_sync_scheduled: bool,
    /// Incomplete escape sequence at the end of the output so far
    pending_escape: Vec<u8>,
}

/// Mathematical value of a `TmuxTerminal`.
pub struct TerminalView {
    pub id: u32,
    pub synced: bool,
    pub sync_scheduled: bool,
    pub pending: Seq<u8>,
}

impl View for TmuxTerminal {
    type V = TerminalView;

    closed spec fn view(&self) -> TerminalView {
        TerminalView {
            id: self.id,
            synced: self.initial_output,
            sync_scheduled: self.selection_sync_scheduled,
            pending: self.pending_escape@,
        }
    }
}

/// The bytes of ESC[nA behind `n` line feeds: the view scrolls down `n` lines
/// and the cursor goes back up.
pub open spec fn scroll_bytes(n: nat) -> Seq<u8> {
    Seq::new(n, |i: int| 10u8) + seq![27u8, 91] + Seq::new(
        decimal(n).len(),
        |i: int| decimal(n)[i] as u8,
    ) + seq![65u8]
}

proof fn lemma_decimal_is_ascii(n: nat)
    ensures
        is_ascii_chars(decimal(n)),
    decreases n,
{
    assert(digit_char(n % 10) as int == 48 + n % 10);
    if n >= 10 {
        lemma_decimal_is_ascii(n / 10);
    }
}

impl TmuxTerminal {
    /// A terminal that opens after the initial layout has nothing to wait
    /// for: its output counts from the start.
    pub fn new(pane_id: u32, initial_layout_finished: bool) -> (terminal: TmuxTerminal)
        ensures
            terminal@ == (TerminalView {
                id: pane_id,
                synced: initial_layout_finished,
                sync_scheduled: false,
                pending: Seq::empty(),
            }),
    {
        TmuxTerminal {
            id: pane_id,
            initial_output: initial_layout_finished,
            selection_sync_scheduled: false,
            pending_escape: Vec::new(),
        }
    }

    pub fn id(&self) -> (id: u32)
        ensures
            id == self@.id,
    {
        self.id
    }

    pub fn is_synced(&self) -> (r: bool)
        ensures
            r == self@.synced,
    {
        self.initial_output
    }

    pub fn set_synced(&mut self)
        ensures
            final(self)@ == (TerminalView { synced: true, ..old(self)@ }),
    {
        self.initial_output = true;
    }

    pub fn initial_output_finished(&mut self)
        ensures
            final(self)@ == (TerminalView { synced: true, ..old(self)@ }),
    {
        self.set_synced();
    }

    /// What reaches the screen of an output chunk. Regular output is ignored
    /// until the initial output has arrived. Mouse tracking requests are
    /// dropped: select-to-copy and middle-click paste always belong to the
    /// terminal.
    pub fn feed_output(&mut self, output: &[u8], initial: bool) -> (shown: Option<Vec<u8>>)
        ensures
            !initial && !old(self)@.synced ==> shown is None && final(self)@ == old(self)@,
            initial || old(self)@.synced ==> {
                let run = filtered(old(self)@.pending + output@);
                &&& shown is Some
                &&& shown->Some_0@ == run.output
                &&& final(self)@ == (TerminalView { pending: run.pending, ..old(self)@ })
            },
            final(self)@ == fed(old(self)@, output@, initial).0,
            shown is Some <==> fed(old(self)@, output@, initial).1 is Some,
            shown is Some ==> fed(old(self)@, output@, initial).1 == Some(shown->Some_0@),
    {
        if !initial && !self.is_synced() {
            return None;
        }
        let shown = filter_mouse_tracking(&mut self.pending_escape, output);
        Some(shown)
    }

    /// Scrolls the view past `empty_lines` lines; what reaches the screen.
    pub fn scroll_view(&mut self, empty_lines: usize) -> (shown: Option<Vec<u8>>)
        ensures
            empty_lines < 1 || !old(self)@.synced ==> shown is None && final(self)@ == old(self)@,
            empty_lines >= 1 && old(self)@.synced ==> {
                let run = filtered(old(self)@.pending + scroll_bytes(empty_lines as nat));
                &&& shown is Some
                &&& shown->Some_0@ == run.output
                &&& final(self)@ == (TerminalView { pending: run.pending, ..old(self)@ })
            },
    {
        if empty_lines < 1 {
            return None;
        }
        let mut output: Vec<u8> = Vec::new();
        let mut i: usize = 0;
        while i < empty_lines
            invariant
                i <= empty_lines,
                output@ =~= Seq::new(i as nat, |j: int| 10u8),
            decreases empty_lines - i,
        {
            output.push(10);
            i += 1;
        }
        output.push(27);
        output.push(91);
        let mut digits = String::new();
        push_decimal(&mut digits, empty_lines as u64);
        let ghost n = empty_lines as nat;
        let digit_bytes = digits.as_str().as_bytes();
        proof {
            assert(digits@ =~= decimal(n));
            lemma_decimal_is_ascii(n);
            is_ascii_chars_encode_utf8(digits@);
            assert(digit_bytes@ =~= Seq::new(decimal(n).len(), |j: int| decimal(n)[j] as u8));
        }
        output.extend_from_slice(digit_bytes);
        output.push(65);
        assert(output@ =~= scroll_bytes(n));
        self.feed_output(output.as_slice(), false)
    }

    /// What clears the scrollback of the screen: ESC[3J.
    pub fn clear_scrollback(&self) -> (shown: Vec<u8>)
        ensures
            shown@ == seq![27u8, 91, 51, 74],
    {
        let shown: Vec<u8> = vec![27, 91, 51, 74];
        assert(shown@ =~= seq![27u8, 91, 51, 74]);
        shown
    }

    /// The selection has changed; returns whether a sync with the Tmux paste
    /// buffer has to be scheduled. Where the selection was cleared, the last
    /// synced buffer is kept.
    pub fn selection_changed(&mut self, has_selection: bool) -> (schedule: bool)
        ensures
            schedule == (has_selection && !old(self)@.sync_scheduled),
            final(self)@ == (TerminalView {
                sync_scheduled: old(self)@.sync_scheduled || has_selection,
                ..old(self)@
            }),
            (final(self)@, schedule) == selection_seen(old(self)@, has_selection),
    {
        if !has_selection || self.selection_sync_scheduled {
            return false;
        }
        self.selection_sync_scheduled = true;
        true
    }

    /// The scheduled sync is due; returns whether the selection is to be
    /// synced now.
    pub fn selection_sync_due(&mut self, has_selection: bool) -> (sync: bool)
        ensures
            sync == has_selection,
            final(self)@ == (TerminalView { sync_scheduled: false, ..old(self)@ }),
            (final(self)@, sync) == selection_due(old(self)@, has_selection),
    {
        self.selection_sync_scheduled = false;
        has_selection
    }
}

// ---------------------------------------------------------------------------
// Laws of what reaches the screen
// ---------------------------------------------------------------------------

proof fn lemma_four_digits(a: u8, b: u8, c: u8, d: u8)
    ensures
        digits_value(seq![a]) == (a - 48) as nat,
        digits_value(seq![a, b, c, d]) == (((a - 48) as nat * 10 + (b - 48) as nat) * 10 + (c
            - 48) as nat) * 10 + (d - 48) as nat,
{
    reveal_with_fuel(digits_value, 5);
    assert(seq![a].drop_last() =~= Seq::empty());
    assert(seq![a, b, c, d].drop_last() =~= seq![a, b, c]);
    assert(seq![a, b, c].drop_last() =~= seq![a, b]);
    assert(seq![a, b].drop_last() =~= seq![a]);
}

/// A number below 10000 that is written with four digits, or with one.
proof fn lemma_short_numbers(n: nat)
    requires
        n < 10 || 1000 <= n < 10000,
    ensures
        n < 10 ==> encode_utf8(decimal(n)) == seq![(48 + n) as u8],
        n >= 1000 ==> encode_utf8(decimal(n)) == seq![
            (48 + n / 1000) as u8,
            (48 + n / 100 % 10) as u8,
            (48 + n / 10 % 10) as u8,
            (48 + n % 10) as u8,
        ],
{
    reveal_with_fuel(decimal, 5);
    lemma_decimal_written(n);
    is_ascii_chars_encode_utf8(decimal(n));
    let text = decimal(n);
    let bytes = encode_utf8(text);
    if n < 10 {
        assert(bytes[0] == text[0] as u8);
        assert(bytes =~= seq![(48 + n) as u8]);
    } else {
        assert(n / 10 / 10 == n / 100 && n / 100 / 10 == n / 1000);
        assert(text =~= seq![
            digit_char(n / 1000),
            digit_char(n / 100 % 10),
            digit_char(n / 10 % 10),
            digit_char(n % 10),
        ]);
        assert(bytes[0] == text[0] as u8 && bytes[1] == text[1] as u8 && bytes[2] == text[2] as u8
            && bytes[3] == text[3] as u8);
        assert(bytes =~= seq![
            (48 + n / 1000) as u8,
            (48 + n / 100 % 10) as u8,
            (48 + n / 10 % 10) as u8,
            (48 + n % 10) as u8,
        ]);
    }
}

/// Whether the mode with the number `n` is one of mouse tracking.
pub open spec fn is_mouse_mode(n: nat) -> bool {
    n == 9 || 1000 <= n <= 1003 || n == 1005 || n == 1006 || n == 1015 || n == 1016
}

/// The parameters that are dropped are the numbers of the mouse tracking
/// modes, and no others.
pub proof fn law_mouse_modes_are_known(n: nat)
    ensures
        mouse_param(encode_utf8(decimal(n))) <==> is_mouse_mode(n),
{
    lemma_decimal_written(n);
    let bytes = encode_utf8(decimal(n));
    if mouse_param(bytes) {
        lemma_four_digits(57, 48, 48, 48);
        lemma_four_digits(49, 48, 48, 48);
        lemma_four_digits(49, 48, 48, 49);
        lemma_four_digits(49, 48, 48, 50);
        lemma_four_digits(49, 48, 48, 51);
        lemma_four_digits(49, 48, 48, 53);
        lemma_four_digits(49, 48, 48, 54);
        lemma_four_digits(49, 48, 49, 53);
        lemma_four_digits(49, 48, 49, 54);
    }
    if is_mouse_mode(n) {
        lemma_short_numbers(n);
    }
}

proof fn lemma_kept_of_joined(list: Seq<Seq<u8>>)
    requires
        list.len() > 0,
        forall|i: int| 0 <= i < list.len() ==> !(#[trigger] list[i]).contains(59),
    ensures
        kept_params(params_joined(list)) == list.filter(|param: Seq<u8>| !mouse_param(param)),
    decreases list.len(),
{
    let keep = |param: Seq<u8>| !mouse_param(param);
    let head = list[0];
    let rest = list.skip(1);
    let all = params_joined(list);
    assert(list =~= seq![head] + rest);
    assert(!list[0].contains(59));
    assert forall|i: int| 0 <= i < head.len() implies #[trigger] head[i] != 59 by {
        assert(head.contains(head[i]));
    }
    Seq::filter_distributes_over_add(seq![head], rest, keep);
    assert(seq![head].filter(keep) =~= (if keep(head) {
        seq![head]
    } else {
        Seq::empty()
    })) by {
        reveal_with_fuel(Seq::filter, 2);
        assert(seq![head].drop_last() =~= Seq::empty());
    }
    if rest.len() == 0 {
        assert(all =~= head);
        lemma_param_len(all, head.len() as int);
        assert(all.take(head.len() as int) =~= head);
        assert(rest.filter(keep) =~= Seq::empty()) by {
            reveal(Seq::filter);
        }
        assert(kept_params(all) =~= list.filter(keep));
    } else {
        assert forall|i: int| 0 <= i < rest.len() implies !(#[trigger] rest[i]).contains(59) by {
            assert(!list[i + 1].contains(59));
        }
        lemma_kept_of_joined(rest);
        lemma_joined_front(head, rest);
        let n = head.len() as int;
        assert forall|i: int| 0 <= i < n implies #[trigger] all[i] != 59 by {
            assert(all[i] == head[i]);
        }
        assert(all[n] == 59);
        lemma_param_len(all, n);
        assert(all.take(n) =~= head);
        assert(all.skip(n + 1) =~= params_joined(rest));
        assert(kept_params(all) =~= list.filter(keep));
    }
}

/// Of a private mode set/reset, whatever stands before it, exactly the
/// parameters of mouse tracking are dropped: the others stay, in order, and
/// where there are none, nothing stays.
pub proof fn law_only_mouse_parameters_are_dropped(
    before: Seq<u8>,
    params: Seq<Seq<u8>>,
    final_byte: u8,
    rest: Seq<u8>,
)
    requires
        params.len() > 0,
        forall|i: int, j: int|
            0 <= i < params.len() && 0 <= j < params[i].len() ==> 48 <= #[trigger] params[i][j]
                <= 57,
        final_byte == 104 || final_byte == 108,
    ensures
        ({
            let request = seq![27u8, 91, 63] + params_joined(params) + seq![final_byte];
            let kept = params.filter(|param: Seq<u8>| !mouse_param(param));
            let left = if kept.len() == 0 {
                Seq::empty()
            } else {
                seq![27u8, 91, 63] + params_joined(kept) + seq![final_byte]
            };
            filtered(before + (request + rest)) == behind(
                filtered(before).output + filtered(before).pending,
                behind(left, filtered(rest)),
            )
        }),
{
    assert forall|i: int| 0 <= i < params.len() implies !(#[trigger] params[i]).contains(59) by {
        if params[i].contains(59) {
            let j = choose|j: int| 0 <= j < params[i].len() && params[i][j] == 59;
            assert(48 <= params[i][j] <= 57);
        }
    }
    lemma_kept_of_joined(params);
    lemma_joined_digits(params);
    let all = params_joined(params);
    law_mode_requests_are_rewritten(before, all, final_byte, rest);
    assert(mode_start() =~= seq![27u8, 91, 63]);
    assert(mode_start() + all + seq![final_byte] + rest =~= seq![27u8, 91, 63] + all + seq![
        final_byte,
    ] + rest);
}

proof fn lemma_joined_digits(params: Seq<Seq<u8>>)
    requires
        forall|i: int, j: int|
            0 <= i < params.len() && 0 <= j < params[i].len() ==> 48 <= #[trigger] params[i][j]
                <= 57,
    ensures
        forall|k: int|
            0 <= k < params_joined(params).len() ==> (48 <= #[trigger] params_joined(params)[k]
                <= 57 || params_joined(params)[k] == 59),
    decreases params.len(),
{
    let all = params_joined(params);
    if params.len() == 1 {
        assert forall|k: int| 0 <= k < all.len() implies (48 <= #[trigger] all[k] <= 57 || all[k]
            == 59) by {
            assert(48 <= params[0][k] <= 57);
        }
    } else if params.len() > 1 {
        let front = params.drop_last();
        assert forall|i: int, j: int|
            0 <= i < front.len() && 0 <= j < front[i].len() implies 48 <= #[trigger] front[i][j]
            <= 57 by {
            assert(48 <= params[i][j] <= 57);
        }
        lemma_joined_digits(front);
        let n = params_joined(front).len();
        assert forall|k: int| 0 <= k < all.len() implies (48 <= #[trigger] all[k] <= 57 || all[k]
            == 59) by {
            if k < n {
                assert(all[k] == params_joined(front)[k]);
            } else if k > n {
                assert(all[k] == params[params.len() - 1][k - n - 1]);
            }
        }
    }
}

/// A private sequence that has not ended yet waits for what comes next, as
/// long as it has less than 64 bytes; a longer one is let through.
pub proof fn law_unfinished_sequences_wait(s: Seq<u8>)
    requires
        s.len() > 0,
        s.take(if s.len() < 3 {
            s.len() as int
        } else {
            3
        }) == seq![27u8, 91, 63].take(if s.len() < 3 {
            s.len() as int
        } else {
            3
        }),
        forall|i: int| 3 <= i < s.len() ==> (48 <= #[trigger] s[i] <= 57 || s[i] == 59),
    ensures
        s.len() < 64 ==> filtered(s).output == Seq::<u8>::empty() && filtered(s).pending == s,
        s.len() >= 64 ==> filtered(s).output == s && filtered(s).pending == Seq::<u8>::empty(),
{
    let n = if s.len() < 3 {
        s.len() as int
    } else {
        3
    };
    let start = seq![27u8, 91, 63];
    assert(s.take(n)[0] == start.take(n)[0]);
    if n >= 2 {
        assert(s.take(n)[1] == start.take(n)[1]);
    }
    if n >= 3 {
        assert(s.take(n)[2] == start.take(n)[2]);
        let rest = s.skip(3);
        assert forall|i: int| 0 <= i < rest.len() implies (48 <= #[trigger] rest[i] <= 57 || rest[i]
            == 59) by {
            assert(rest[i] == s[i + 3]);
        }
        lemma_params_len(rest, rest.len() as int);
    }
}

/// The view is scrolled past empty lines by as many line feeds, and the cursor
/// goes back up by the same number, which is read between `ESC [` and `A`.
pub proof fn law_scrolling_returns_the_cursor(n: nat)
    ensures
        ({
            let bytes = scroll_bytes(n);
            let digits = bytes.subrange(n as int + 2, bytes.len() - 1);
            &&& bytes.len() > n + 3
            &&& forall|i: int| 0 <= i < n ==> #[trigger] bytes[i] == 10
            &&& bytes[n as int] == 27
            &&& bytes[n as int + 1] == 91
            &&& bytes.last() == 65
            &&& digits == encode_utf8(decimal(n))
            &&& digits_value(digits) == n
        }),
{
    lemma_decimal_written(n);
    is_ascii_chars_encode_utf8(decimal(n));
    let bytes = scroll_bytes(n);
    let digits = bytes.subrange(n as int + 2, bytes.len() - 1);
    assert forall|i: int| 0 <= i < digits.len() implies digits[i] == encode_utf8(
        decimal(n),
    )[i] by {
        assert(digits[i] == decimal(n)[i] as u8);
    }
    assert(digits =~= encode_utf8(decimal(n)));
}

/// What is dropped is the number of a mouse tracking mode as it is usually
/// written, without a leading zero or anything else around it.
pub proof fn law_dropped_parameters_are_numbers(param: Seq<u8>)
    requires
        mouse_param(param),
    ensures
        is_mouse_mode(digits_value(param)),
        param == encode_utf8(decimal(digits_value(param))),
{
    lemma_four_digits(57, 48, 48, 48);
    lemma_four_digits(49, 48, 48, 48);
    lemma_four_digits(49, 48, 48, 49);
    lemma_four_digits(49, 48, 48, 50);
    lemma_four_digits(49, 48, 48, 51);
    lemma_four_digits(49, 48, 48, 53);
    lemma_four_digits(49, 48, 48, 54);
    lemma_four_digits(49, 48, 49, 53);
    lemma_four_digits(49, 48, 49, 54);
    lemma_short_numbers(digits_value(param));
}

/// What a terminal shows of some output, and what becomes of it.
pub open spec fn fed(terminal: TerminalView, output: Seq<u8>, initial: bool) -> (
    TerminalView,
    Option<Seq<u8>>,
) {
    if !initial && !terminal.synced {
        (terminal, None)
    } else {
        let run = filtered(terminal.pending + output);
        (TerminalView { pending: run.pending, ..terminal }, Some(run.output))
    }
}

proof fn lemma_plain_output(s: Seq<u8>)
    requires
        !s.contains(27),
    ensures
        filtered(s).output == s,
        filtered(s).pending.len() == 0,
    decreases s.len(),
{
    if s.len() > 0 {
        assert(s.contains(s[0]));
        let rest = s.skip(1);
        assert forall|i: int| 0 <= i < rest.len() implies rest[i] != 27 by {
            assert(s.contains(s[i + 1]));
        }
        lemma_plain_output(rest);
        assert(seq![s[0]] + rest =~= s);
    }
}

/// Output waits for the screen: until the initial output is complete, nothing
/// else is shown, and afterwards all of it is. Output without an escape is
/// shown at once and byte for byte.
pub proof fn law_output_waits_for_the_screen(
    terminal: TerminalView,
    output: Seq<u8>,
    initial: bool,
)
    ensures
        !terminal.synced ==> fed(terminal, output, false) == (terminal, None::<Seq<u8>>),
        fed(terminal, output, true).1 is Some,
        terminal.synced ==> fed(terminal, output, initial) == fed(terminal, output, true),
        (initial || terminal.synced) && terminal.pending.len() == 0 && !output.contains(27)
            ==> fed(terminal, output, initial) == (terminal, Some(output)),
{
    if terminal.pending.len() == 0 && !output.contains(27) {
        assert(terminal.pending + output =~= output);
        lemma_plain_output(output);
        assert(filtered(output).pending =~= terminal.pending);
    }
}

/// Output that arrives in parts is shown as if it had arrived at once, as long
/// as no sequence is held back for too long.
pub proof fn law_output_arrives_in_parts(terminal: TerminalView, first: Seq<u8>, second: Seq<u8>)
    requires
        terminal.synced,
        !gives_up(terminal.pending + first),
    ensures
        ({
            let (between, one) = fed(terminal, first, false);
            let (after, two) = fed(between, second, false);
            fed(terminal, first + second, false) == (after, Some(one->Some_0 + two->Some_0))
        }),
{
    law_chunks_do_not_matter(terminal.pending + first, second);
    assert(terminal.pending + (first + second) =~= (terminal.pending + first) + second);
}

/// What a change of the selection does.
pub open spec fn selection_seen(terminal: TerminalView, has_selection: bool) -> (
    TerminalView,
    bool,
) {
    (
        TerminalView { sync_scheduled: terminal.sync_scheduled || has_selection, ..terminal },
        has_selection && !terminal.sync_scheduled,
    )
}

/// What the end of the wait for further changes of the selection does.
pub open spec fn selection_due(terminal: TerminalView, has_selection: bool) -> (
    TerminalView,
    bool,
) {
    (TerminalView { sync_scheduled: false, ..terminal }, has_selection)
}

/// Of the changes of a selection up to the end of the wait, the first one
/// starts the wait and the others start none; the next change behind its end
/// starts another. What is not selected anymore by then is not sent.
pub proof fn law_selections_are_sent_once(terminal: TerminalView, still: bool)
    requires
        !terminal.sync_scheduled,
    ensures
        ({
            let (waiting, first) = selection_seen(terminal, true);
            let (again, second) = selection_seen(waiting, true);
            let (done, sent) = selection_due(again, still);
            &&& first
            &&& !second
            &&& again == waiting
            &&& sent == still
            &&& done == terminal
            &&& selection_seen(done, true).1
        }),
        selection_seen(terminal, false) == (terminal, false),
{
}

} // verus!
