//! Text building blocks: numbers written out, characters, search and
//! replacement.

use vstd::prelude::*;
use vstd::utf8::{encode_utf8, encode_utf8_decode_utf8};

verus! {

/// Trusted: `String::push` of std appends the given character.
pub assume_specification[ String::push ](s: &mut String, c: char)
    ensures
        final(s)@ == old(s)@.push(c),
;

// ---------------------------------------------------------------------------
// Numbers
// ---------------------------------------------------------------------------

/// The decimal digit of value `d`.
pub open spec fn digit_char(d: nat) -> char
    recommends
        d < 10,
{
    (48 + d) as char
}

/// `n` in base ten, without leading zeros.
pub open spec fn decimal(n: nat) -> Seq<char>
    decreases n,
{
    if n < 10 {
        seq![digit_char(n)]
    } else {
        decimal(n / 10).push(digit_char(n % 10))
    }
}

/// `n` in base ten, with a minus sign where it is negative.
pub open spec fn signed_decimal(n: int) -> Seq<char> {
    if n < 0 {
        seq!['-'] + decimal((-n) as nat)
    } else {
        decimal(n as nat)
    }
}

/// Appends `n` in base ten.
pub fn push_decimal(out: &mut String, n: u64)
    ensures
        final(out)@ == old(out)@ + decimal(n as nat),
    decreases n,
{
    let low: u8 = (n % 10) as u8;
    if n >= 10 {
        push_decimal(out, n / 10);
    }
    let digit: u8 = 48 + low;
    out.push(digit as char);
}

/// Appends `n` in base ten, with a minus sign where it is negative.
pub fn push_signed_decimal(out: &mut String, n: i32)
    ensures
        final(out)@ == old(out)@ + signed_decimal(n as int),
{
    let wide: i64 = n as i64;
    if wide < 0 {
        out.push('-');
        push_decimal(out, (-wide) as u64);
        assert(out@ =~= old(out)@ + signed_decimal(n as int));
    } else {
        push_decimal(out, wide as u64);
    }
}

/// The digit of value `d` in base sixteen, with capital letters where
/// `upper` is set.
pub open spec fn hex_digit(d: nat, upper: bool) -> char
    recommends
        d < 16,
{
    if d < 10 {
        (48 + d) as char
    } else if upper {
        (55 + d) as char
    } else {
        (87 + d) as char
    }
}

/// The two digits of a byte in base sixteen.
pub open spec fn hex_byte(b: u8, upper: bool) -> Seq<char> {
    seq![hex_digit((b / 16) as nat, upper), hex_digit((b % 16) as nat, upper)]
}

fn hex_digit_of(d: u8, upper: bool) -> (c: char)
    requires
        d < 16,
    ensures
        c == hex_digit(d as nat, upper),
{
    let code: u8 = if d < 10 {
        48 + d
    } else if upper {
        55 + d
    } else {
        87 + d
    };
    code as char
}

/// Appends the two digits of a byte in base sixteen.
pub fn push_hex_byte(out: &mut String, b: u8, upper: bool)
    ensures
        final(out)@ == old(out)@ + hex_byte(b, upper),
{
    out.push(hex_digit_of(b / 16, upper));
    out.push(hex_digit_of(b % 16, upper));
    assert(out@ =~= old(out)@ + hex_byte(b, upper));
}

/// `n` in base sixteen, without leading zeros.
pub open spec fn hex_number(n: nat, upper: bool) -> Seq<char>
    decreases n,
{
    if n < 16 {
        seq![hex_digit(n, upper)]
    } else {
        hex_number(n / 16, upper).push(hex_digit(n % 16, upper))
    }
}

/// `n` in base sixteen, with at least two digits.
pub open spec fn hex_padded(n: nat, upper: bool) -> Seq<char> {
    if n < 16 {
        seq!['0'] + hex_number(n, upper)
    } else {
        hex_number(n, upper)
    }
}

fn push_hex_number(out: &mut String, n: u32, upper: bool)
    ensures
        final(out)@ == old(out)@ + hex_number(n as nat, upper),
    decreases n,
{
    if n >= 16 {
        push_hex_number(out, n / 16, upper);
    }
    out.push(hex_digit_of((n % 16) as u8, upper));
    assert(out@ =~= old(out)@ + hex_number(n as nat, upper));
}

/// Appends `n` in base sixteen, with at least two digits.
pub fn push_hex_padded(out: &mut String, n: u32, upper: bool)
    ensures
        final(out)@ == old(out)@ + hex_padded(n as nat, upper),
{
    if n < 16 {
        out.push('0');
    }
    push_hex_number(out, n, upper);
    assert(out@ =~= old(out)@ + hex_padded(n as nat, upper));
}

// ---------------------------------------------------------------------------
// Characters
// ---------------------------------------------------------------------------

/// The characters of a string.
pub fn chars_of(s: &str) -> (v: Vec<char>)
    ensures
        v@ == s@,
{
    let mut v: Vec<char> = Vec::new();
    for c in it: s.chars()
        invariant
            it.seq() == s@,
            v@ == s@.take(it.index() as int),
    {
        v.push(c);
        assert(v@ =~= s@.take(it.index() + 1));
    }
    assert(s@.take(s@.len() as int) =~= s@);
    v
}

/// Appends the characters `v[from..to]`.
pub fn push_chars(out: &mut String, v: &[char], from: usize, to: usize)
    requires
        from <= to <= v@.len(),
    ensures
        final(out)@ == old(out)@ + v@.subrange(from as int, to as int),
{
    let mut i: usize = from;
    assert(v@.subrange(from as int, from as int) =~= Seq::empty());
    assert(out@ =~= old(out)@ + v@.subrange(from as int, i as int));
    while i < to
        invariant
            from <= i <= to <= v@.len(),
            out@ == old(out)@ + v@.subrange(from as int, i as int),
        decreases to - i,
    {
        out.push(v[i]);
        i += 1;
        assert(out@ =~= old(out)@ + v@.subrange(from as int, i as int));
    }
}

/// The string of the characters `v[from..to]`.
pub fn string_of(v: &[char], from: usize, to: usize) -> (s: String)
    requires
        from <= to <= v@.len(),
    ensures
        s@ == v@.subrange(from as int, to as int),
{
    let mut s = String::new();
    push_chars(&mut s, v, from, to);
    assert(s@ =~= v@.subrange(from as int, to as int));
    s
}

/// Whether the two strings hold the same text.
pub fn same_text(a: &str, b: &str) -> (r: bool)
    ensures
        r == (a@ == b@),
{
    let left = a.as_bytes();
    let right = b.as_bytes();
    if left.len() != right.len() {
        return false;
    }
    let mut i: usize = 0;
    while i < left.len()
        invariant
            left@ == encode_utf8(a@),
            right@ == encode_utf8(b@),
            left@.len() == right@.len(),
            i <= left@.len(),
            forall|j: int| 0 <= j < i ==> #[trigger] left@[j] == right@[j],
        decreases left@.len() - i,
    {
        if left[i] != right[i] {
            return false;
        }
        i += 1;
    }
    proof {
        assert(left@ =~= right@);
        encode_utf8_decode_utf8(a@);
        encode_utf8_decode_utf8(b@);
    }
    true
}

/// The UTF-8 bytes of a text are those of its parts, one behind the other.
pub proof fn lemma_encode_concat(a: Seq<char>, b: Seq<char>)
    ensures
        encode_utf8(a + b) == encode_utf8(a) + encode_utf8(b),
    decreases a.len(),
{
    if a.len() == 0 {
        assert(a + b =~= b);
        assert(encode_utf8(a) + encode_utf8(b) =~= encode_utf8(b));
    } else {
        assert((a + b).drop_first() =~= a.drop_first() + b);
        lemma_encode_concat(a.drop_first(), b);
        assert(encode_utf8(a + b) =~= encode_utf8(a) + encode_utf8(b));
    }
}

// ---------------------------------------------------------------------------
// Search and replacement
// ---------------------------------------------------------------------------

/// Whether `pattern` stands in `s` at position `i`.
pub open spec fn occurs_at<A>(s: Seq<A>, pattern: Seq<A>, i: int) -> bool {
    &&& 0 <= i
    &&& i + pattern.len() <= s.len()
    &&& s.subrange(i, i + pattern.len()) == pattern
}

/// Whether `pattern` stands anywhere in `s`.
pub open spec fn contains_text<A>(s: Seq<A>, pattern: Seq<A>) -> bool {
    exists|i: int| #[trigger] occurs_at(s, pattern, i)
}

/// `s` with every occurrence of `pattern` replaced by `with`: the leftmost
/// one first, each next one behind the previous.
pub open spec fn replaced(s: Seq<char>, pattern: Seq<char>, with: Seq<char>) -> Seq<char>
    decreases s.len(),
{
    if pattern.len() == 0 || s.len() < pattern.len() {
        s
    } else if s.take(pattern.len() as int) == pattern {
        with + replaced(s.skip(pattern.len() as int), pattern, with)
    } else {
        seq![s[0]] + replaced(s.skip(1), pattern, with)
    }
}

/// Whether `pattern` stands in `s` at position `i`.
pub fn matches_at(s: &[char], pattern: &[char], i: usize) -> (r: bool)
    requires
        i <= s@.len(),
    ensures
        r == occurs_at(s@, pattern@, i as int),
{
    if s.len() - i < pattern.len() {
        return false;
    }
    let mut j: usize = 0;
    while j < pattern.len()
        invariant
            j <= pattern@.len(),
            i + pattern@.len() <= s@.len() <= usize::MAX,
            forall|k: int| 0 <= k < j ==> s@[i + k] == #[trigger] pattern@[k],
        decreases pattern@.len() - j,
    {
        if s[i + j] != pattern[j] {
            proof {
                assert(s@.subrange(i as int, i + pattern@.len())[j as int] != pattern@[j as int]);
            }
            return false;
        }
        j += 1;
    }
    assert(s@.subrange(i as int, i + pattern@.len()) =~= pattern@);
    true
}

/// The first position of `pattern` in `s` at or behind `from`.
pub open spec fn first_occurrence(s: Seq<char>, pattern: Seq<char>, from: int) -> Option<int>
    decreases s.len() - from + 1,
{
    if from > s.len() {
        None
    } else if occurs_at(s, pattern, from) {
        Some(from)
    } else {
        first_occurrence(s, pattern, from + 1)
    }
}

/// The last position of `pattern` in `s` at or before `upto`.
pub open spec fn last_occurrence(s: Seq<char>, pattern: Seq<char>, upto: int) -> Option<int>
    decreases upto + 1,
{
    if upto < 0 {
        None
    } else if occurs_at(s, pattern, upto) {
        Some(upto)
    } else {
        last_occurrence(s, pattern, upto - 1)
    }
}

/// The first position of `pattern` in `s` at or behind `from`.
pub fn find_first(s: &[char], pattern: &[char], from: usize) -> (r: Option<usize>)
    requires
        from <= s@.len(),
    ensures
        match r {
            Some(i) => first_occurrence(s@, pattern@, from as int) == Some(i as int) && i
                + pattern@.len() <= s@.len(),
            None => first_occurrence(s@, pattern@, from as int) is None,
        },
{
    let mut i: usize = from;
    loop
        invariant
            from <= i <= s@.len(),
            first_occurrence(s@, pattern@, from as int) == first_occurrence(
                s@,
                pattern@,
                i as int,
            ),
        decreases s@.len() - i,
    {
        if matches_at(s, pattern, i) {
            return Some(i);
        }
        if i == s.len() {
            assert(first_occurrence(s@, pattern@, i + 1) is None);
            return None;
        }
        i += 1;
    }
}

/// The last position of `pattern` in `s`.
pub fn find_last(s: &[char], pattern: &[char]) -> (r: Option<usize>)
    ensures
        match r {
            Some(i) => last_occurrence(s@, pattern@, s@.len() as int) == Some(i as int) && i
                + pattern@.len() <= s@.len(),
            None => last_occurrence(s@, pattern@, s@.len() as int) is None,
        },
{
    let mut i: usize = s.len();
    loop
        invariant
            i <= s@.len(),
            last_occurrence(s@, pattern@, s@.len() as int) == last_occurrence(
                s@,
                pattern@,
                i as int,
            ),
        decreases i,
    {
        if matches_at(s, pattern, i) {
            return Some(i);
        }
        if i == 0 {
            assert(last_occurrence(s@, pattern@, -1) is None);
            return None;
        }
        i -= 1;
    }
}

/// `s` with every occurrence of `pattern` replaced by `with`.
pub fn replace_all(s: &str, pattern: &str, with: &str) -> (r: String)
    requires
        pattern@.len() > 0,
    ensures
        r@ == replaced(s@, pattern@, with@),
{
    let text = chars_of(s);
    let pat = chars_of(pattern);
    let sub = chars_of(with);
    let mut out = String::new();
    let mut i: usize = 0;
    assert(s@.skip(0) =~= s@);
    assert(out@ + replaced(s@, pattern@, with@) =~= replaced(s@, pattern@, with@));
    while i < text.len()
        invariant
            text@ == s@,
            pat@ == pattern@,
            sub@ == with@,
            pattern@.len() > 0,
            i <= text@.len(),
            out@ + replaced(s@.skip(i as int), pattern@, with@) == replaced(s@, pattern@, with@),
        decreases text@.len() - i,
    {
        let ghost rest = s@.skip(i as int);
        let ghost before = out@;
        if matches_at(text.as_slice(), pat.as_slice(), i) {
            let n: usize = sub.len();
            push_chars(&mut out, sub.as_slice(), 0, n);
            i = i + pat.len();
            proof {
                assert(with@.subrange(0, with@.len() as int) =~= with@);
                assert(rest.take(pattern@.len() as int) =~= s@.subrange(
                    i - pattern@.len(),
                    i as int,
                ));
                assert(rest.skip(pattern@.len() as int) =~= s@.skip(i as int));
                assert(out@ + replaced(s@.skip(i as int), pattern@, with@) =~= before + (with@
                    + replaced(s@.skip(i as int), pattern@, with@)));
            }
        } else {
            out.push(text[i]);
            proof {
                if rest.len() >= pattern@.len() {
                    assert(rest.take(pattern@.len() as int) =~= s@.subrange(
                        i as int,
                        i + pattern@.len(),
                    ));
                    assert(rest.skip(1) =~= s@.skip(i + 1));
                    assert(out@ + replaced(s@.skip(i + 1), pattern@, with@) =~= before + (
                    seq![rest[0]] + replaced(s@.skip(i + 1), pattern@, with@)));
                } else {
                    assert(s@.skip(i + 1).len() < pattern@.len());
                    assert(out@ + s@.skip(i + 1) =~= before + rest);
                }
            }
            i += 1;
        }
    }
    assert(out@ + s@.skip(i as int) =~= out@);
    out
}

/// Replacing a character removes it, unless what replaces it brings it back.
pub proof fn lemma_replaced_removes(s: Seq<char>, c: char, with: Seq<char>)
    requires
        !with.contains(c),
    ensures
        !replaced(s, seq![c], with).contains(c),
    decreases s.len(),
{
    lemma_replaced_adds_nothing(s, c, with, c);
}

/// Replacing a character brings in no other than those that replace it.
pub proof fn lemma_replaced_adds_nothing(s: Seq<char>, c: char, with: Seq<char>, d: char)
    requires
        !with.contains(d),
        d == c || !s.contains(d),
    ensures
        !replaced(s, seq![c], with).contains(d),
    decreases s.len(),
{
    let pattern = seq![c];
    let r = replaced(s, pattern, with);
    if s.len() > 0 {
        let rest = s.skip(1);
        if rest.contains(d) {
            let i = choose|i: int| 0 <= i < rest.len() && rest[i] == d;
            assert(s[i + 1] == d);
        }
        lemma_replaced_adds_nothing(rest, c, with, d);
        let tail = replaced(rest, pattern, with);
        if s[0] == c {
            assert(s.take(1) =~= pattern);
            assert(r =~= with + tail);
        } else {
            assert(s.take(1)[0] != pattern[0]);
            assert(r =~= seq![s[0]] + tail);
            assert(s.contains(s[0]));
        }
        if r.contains(d) {
            let i = choose|i: int| 0 <= i < r.len() && r[i] == d;
            let front = if s[0] == c {
                with
            } else {
                seq![s[0]]
            };
            if i < front.len() {
                assert(front[i] == d);
            } else {
                assert(tail[i - front.len()] == d);
            }
        }
    }
}

// ---------------------------------------------------------------------------
// Laws
// ---------------------------------------------------------------------------

/// The value of a digit in base sixteen, in either case.
pub open spec fn digit_value(c: char) -> int {
    if '0' <= c <= '9' {
        c as int - '0' as int
    } else if 'A' <= c <= 'F' {
        c as int - 'A' as int + 10
    } else if 'a' <= c <= 'f' {
        c as int - 'a' as int + 10
    } else {
        -1
    }
}

/// The number that some digits write in the given base.
pub open spec fn value_in_base(digits: Seq<char>, base: int) -> int
    decreases digits.len(),
{
    if digits.len() == 0 {
        0
    } else {
        value_in_base(digits.drop_last(), base) * base + digit_value(digits.last())
    }
}

/// A number in base ten is read back as itself. It is made of the digits 0 to
/// 9, and starts with 0 only where it is 0.
pub proof fn law_decimal_is_read_back(n: nat)
    ensures
        decimal(n).len() > 0,
        value_in_base(decimal(n), 10) == n,
        forall|i: int| 0 <= i < decimal(n).len() ==> '0' <= #[trigger] decimal(n)[i] <= '9',
        n > 0 ==> decimal(n)[0] != '0',
        n == 0 ==> decimal(n) == seq!['0'],
    decreases n,
{
    reveal_with_fuel(value_in_base, 2);
    if n < 10 {
        assert(decimal(n).drop_last() =~= Seq::empty());
    } else {
        law_decimal_is_read_back(n / 10);
        assert(decimal(n).drop_last() =~= decimal(n / 10));
        assert(decimal(n)[0] == decimal(n / 10)[0]);
        assert forall|i: int| 0 <= i < decimal(n).len() implies '0' <= #[trigger] decimal(n)[i]
            <= '9' by {
            if i < decimal(n / 10).len() {
                assert(decimal(n)[i] == decimal(n / 10)[i]);
            }
        }
    }
}

/// A number with a sign is the number behind a minus sign where it is
/// negative, and the number alone where it is not.
pub proof fn law_signed_decimal_is_read_back(n: int)
    ensures
        n < 0 ==> signed_decimal(n)[0] == '-' && value_in_base(signed_decimal(n).skip(1), 10) == -n,
        n >= 0 ==> value_in_base(signed_decimal(n), 10) == n && signed_decimal(n)[0] != '-',
{
    if n < 0 {
        law_decimal_is_read_back((-n) as nat);
        assert(signed_decimal(n).skip(1) =~= decimal((-n) as nat));
    } else {
        law_decimal_is_read_back(n as nat);
    }
}

/// A byte in base sixteen has two digits, of the asked case, and is read back
/// as itself.
pub proof fn law_hex_bytes_are_read_back(b: u8, upper: bool)
    ensures
        hex_byte(b, upper).len() == 2,
        value_in_base(hex_byte(b, upper), 16) == b,
        forall|i: int|
            0 <= i < 2 ==> {
                let c = #[trigger] hex_byte(b, upper)[i];
                '0' <= c <= '9' || (upper && 'A' <= c <= 'F') || (!upper && 'a' <= c <= 'f')
            },
        hex_padded(b as nat, upper) == hex_byte(b, upper),
{
    reveal_with_fuel(value_in_base, 3);
    reveal_with_fuel(hex_number, 2);
    let h = hex_byte(b, upper);
    assert(h.drop_last() =~= seq![h[0]]);
    assert(h.drop_last().drop_last() =~= Seq::empty());
    assert(digit_value(h[0]) == b / 16);
    assert(digit_value(h[1]) == b % 16);
    assert(hex_padded(b as nat, upper) =~= h);
}

/// Text that does not hold the pattern is left alone.
pub proof fn law_other_text_is_not_replaced(s: Seq<char>, pattern: Seq<char>, with: Seq<char>)
    requires
        !contains_text(s, pattern),
    ensures
        replaced(s, pattern, with) == s,
    decreases s.len(),
{
    if pattern.len() > 0 && s.len() >= pattern.len() {
        assert(s.take(pattern.len() as int) =~= s.subrange(0, pattern.len() as int));
        if s.take(pattern.len() as int) == pattern {
            assert(occurs_at(s, pattern, 0));
        }
        if contains_text(s.skip(1), pattern) {
            let i = choose|i: int| #[trigger] occurs_at(s.skip(1), pattern, i);
            assert(s.subrange(i + 1, i + 1 + pattern.len()) =~= s.skip(1).subrange(
                i,
                i + pattern.len(),
            ));
            assert(occurs_at(s, pattern, i + 1));
        }
        law_other_text_is_not_replaced(s.skip(1), pattern, with);
        assert(seq![s[0]] + s.skip(1) =~= s);
    }
}

/// The first occurrence of the pattern is replaced, what stands before it
/// stays, and what stands behind it is treated alike.
pub proof fn law_each_occurrence_is_replaced(
    s: Seq<char>,
    at: int,
    pattern: Seq<char>,
    with: Seq<char>,
)
    requires
        pattern.len() > 0,
        occurs_at(s, pattern, at),
        forall|i: int| 0 <= i < at ==> !#[trigger] occurs_at(s, pattern, i),
    ensures
        replaced(s, pattern, with) == s.take(at) + with + replaced(
            s.skip(at + pattern.len()),
            pattern,
            with,
        ),
    decreases s.len(),
{
    let n = pattern.len() as int;
    assert(s.take(n) =~= s.subrange(0, n));
    if at == 0 {
        assert(s.take(0) + with =~= with);
    } else {
        assert(!occurs_at(s, pattern, 0));
        let rest = s.skip(1);
        assert(rest.subrange(at - 1, at - 1 + n) =~= s.subrange(at, at + n));
        assert(occurs_at(rest, pattern, at - 1));
        assert forall|i: int| 0 <= i < at - 1 implies !#[trigger] occurs_at(rest, pattern, i) by {
            assert(!occurs_at(s, pattern, i + 1));
            assert(s.subrange(i + 1, i + 1 + n) =~= rest.subrange(i, i + n));
        }
        law_each_occurrence_is_replaced(rest, at - 1, pattern, with);
        assert(rest.skip(at - 1 + n) =~= s.skip(at + n));
        assert(seq![s[0]] + (rest.take(at - 1) + with + replaced(s.skip(at + n), pattern, with))
            =~= s.take(at) + with + replaced(s.skip(at + n), pattern, with));
    }
}

/// A character is replaced wherever it stands: the text may be cut anywhere.
pub proof fn lemma_replaced_concat(a: Seq<char>, b: Seq<char>, c: char, with: Seq<char>)
    ensures
        replaced(a + b, seq![c], with) == replaced(a, seq![c], with) + replaced(
            b,
            seq![c],
            with,
        ),
    decreases a.len(),
{
    let pattern = seq![c];
    if a.len() == 0 {
        assert(a + b =~= b);
        assert(replaced(a, pattern, with) + replaced(b, pattern, with) =~= replaced(
            b,
            pattern,
            with,
        ));
    } else {
        assert((a + b).skip(1) =~= a.skip(1) + b);
        assert((a + b).take(1) =~= a.take(1));
        lemma_replaced_concat(a.skip(1), b, c, with);
        let front = if a.take(1) == pattern {
            with
        } else {
            seq![a[0]]
        };
        assert(front + (replaced(a.skip(1), pattern, with) + replaced(b, pattern, with)) =~= front
            + replaced(a.skip(1), pattern, with) + replaced(b, pattern, with));
    }
}

/// A character by itself becomes what replaces it, and any other stays.
pub proof fn lemma_replaced_one(d: char, c: char, with: Seq<char>)
    ensures
        replaced(seq![d], seq![c], with) == (if d == c {
            with
        } else {
            seq![d]
        }),
{
    let s = seq![d];
    reveal_with_fuel(replaced, 2);
    assert(s.take(1) =~= s);
    assert(s.skip(1) =~= Seq::empty());
    if d != c {
        assert(s[0] != seq![c][0]);
        assert(seq![d] + Seq::<char>::empty() =~= seq![d]);
    } else {
        assert(with + Seq::<char>::empty() =~= with);
    }
}

/// The first occurrence is the first position where the pattern stands.
pub proof fn law_first_occurrence_is_found(
    s: Seq<char>,
    pattern: Seq<char>,
    from: int,
    at: int,
)
    requires
        from <= at <= s.len(),
        occurs_at(s, pattern, at),
        forall|i: int| from <= i < at ==> !#[trigger] occurs_at(s, pattern, i),
    ensures
        first_occurrence(s, pattern, from) == Some(at),
    decreases at - from,
{
    if from < at {
        assert(!occurs_at(s, pattern, from));
        law_first_occurrence_is_found(s, pattern, from + 1, at);
    }
}

/// The last occurrence is the last position where the pattern stands.
pub proof fn law_last_occurrence_is_found(s: Seq<char>, pattern: Seq<char>, upto: int, at: int)
    requires
        0 <= at <= upto,
        occurs_at(s, pattern, at),
        forall|i: int| at < i <= upto ==> !#[trigger] occurs_at(s, pattern, i),
    ensures
        last_occurrence(s, pattern, upto) == Some(at),
    decreases upto - at,
{
    if at < upto {
        assert(!occurs_at(s, pattern, upto));
        law_last_occurrence_is_found(s, pattern, upto - 1, at);
    }
}

} // verus!
