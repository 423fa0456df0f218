//! What the settings window shows and what its choices mean.

use vstd::prelude::*;

use crate::config::terminal::PredictiveEchoMode;
use crate::config::themes::names_view;
use crate::text::{
    chars_of, decimal, law_decimal_is_read_back, push_decimal, same_text, value_in_base,
};

verus! {

// ---------------------------------------------------------------------------
// Themes
// ---------------------------------------------------------------------------

/// The entries of the theme list: "Custom" uses the individual colors; any
/// other entry is a built-in scheme that overrides them.
pub fn theme_labels(names: &Vec<String>) -> (labels: Vec<String>)
    ensures
        names_view(labels@) == seq!["Custom"@] + names_view(names@),
{
    let mut labels: Vec<String> = Vec::new();
    labels.push("Custom".to_string());
    let mut i: usize = 0;
    while i < names.len()
        invariant
            i <= names@.len(),
            labels@.len() == i + 1,
            labels@[0]@ == "Custom"@,
            forall|j: int| 0 < j <= i ==> (#[trigger] labels@[j])@ == names@[j - 1]@,
        decreases names@.len() - i,
    {
        labels.push(names[i].clone());
        i += 1;
    }
    assert(names_view(labels@) =~= seq!["Custom"@] + names_view(names@));
    labels
}

/// The entry of a theme: 0 ("Custom") where there is none or its name is not
/// known, else one more than its first position among the names.
pub open spec fn entry_of(names: Seq<Seq<char>>, theme: Option<Seq<char>>) -> int {
    match theme {
        None => 0,
        Some(name) => if names.contains(name) {
            names.index_of_first(name)->Some_0 + 1
        } else {
            0
        },
    }
}

/// The entry that is selected for the configured theme.
pub fn selected_theme(names: &Vec<String>, theme: Option<&str>) -> (entry: u32)
    requires
        names@.len() < u32::MAX,
    ensures
        entry == entry_of(
            names_view(names@),
            match theme {
                Some(name) => Some(name@),
                None => None,
            },
        ),
{
    let name = match theme {
        Some(name) => name,
        None => return 0,
    };
    let ghost all = names_view(names@);
    let mut i: usize = 0;
    while i < names.len()
        invariant
            all == names_view(names@),
            theme == Some(name),
            names@.len() < u32::MAX,
            i <= names@.len(),
            forall|j: int| 0 <= j < i ==> #[trigger] all[j] != name@,
        decreases names@.len() - i,
    {
        if same_text(names[i].as_str(), name) {
            proof {
                assert(all[i as int] == name@);
                assert(all.contains(name@));
                all.index_of_first_ensures(name@);
                let k = all.index_of_first(name@)->Some_0;
                assert(all[k] == name@);
                assert(k == i);
            }
            return i as u32 + 1;
        }
        i += 1;
    }
    proof {
        if all.contains(name@) {
            let j = choose|j: int| 0 <= j < all.len() && all[j] == name@;
            assert(all[j] != name@);
        }
    }
    0
}

/// The theme of an entry.
pub open spec fn theme_of(names: Seq<Seq<char>>, entry: int) -> Option<Seq<char>> {
    if 0 < entry <= names.len() {
        Some(names[entry - 1])
    } else {
        None
    }
}

/// The theme that selecting an entry configures.
pub fn theme_at(names: &Vec<String>, entry: u32) -> (theme: Option<String>)
    ensures
        match theme {
            Some(name) => theme_of(names_view(names@), entry as int) == Some(name@),
            None => theme_of(names_view(names@), entry as int) is None,
        },
{
    if entry == 0 || entry as usize > names.len() {
        None
    } else {
        Some(names[entry as usize - 1].clone())
    }
}

/// The list opens on the configured theme: selecting the entry that is shown
/// for a known theme configures that theme.
pub proof fn law_shown_theme_is_the_configured_one(names: Seq<Seq<char>>, theme: Seq<char>)
    requires
        names.contains(theme),
    ensures
        theme_of(names, entry_of(names, Some(theme))) == Some(theme),
{
    names.index_of_first_ensures(theme);
}

// ---------------------------------------------------------------------------
// Predictive echo
// ---------------------------------------------------------------------------

/// The entry of a mode in the list "Off", "Auto", "Always".
pub open spec fn entry_of_mode(mode: PredictiveEchoMode) -> u32 {
    match mode {
        PredictiveEchoMode::Off => 0,
        PredictiveEchoMode::Auto => 1,
        PredictiveEchoMode::Always => 2,
    }
}

/// The entry that is selected for the configured mode.
pub fn selected_mode(mode: PredictiveEchoMode) -> (entry: u32)
    ensures
        entry == entry_of_mode(mode),
{
    match mode {
        PredictiveEchoMode::Off => 0,
        PredictiveEchoMode::Auto => 1,
        PredictiveEchoMode::Always => 2,
    }
}

/// The mode of an entry.
pub open spec fn mode_of(entry: u32) -> PredictiveEchoMode {
    if entry == 0 {
        PredictiveEchoMode::Off
    } else if entry == 2 {
        PredictiveEchoMode::Always
    } else {
        PredictiveEchoMode::Auto
    }
}

/// The mode that selecting an entry configures.
pub fn mode_at(entry: u32) -> (mode: PredictiveEchoMode)
    ensures
        mode == mode_of(entry),
{
    match entry {
        0 => PredictiveEchoMode::Off,
        2 => PredictiveEchoMode::Always,
        _ => PredictiveEchoMode::Auto,
    }
}

/// The list opens on the configured mode.
pub proof fn law_shown_mode_is_the_configured_one(mode: PredictiveEchoMode)
    ensures
        mode_of(entry_of_mode(mode)) == mode,
{
}

// ---------------------------------------------------------------------------
// Scrollback
// ---------------------------------------------------------------------------

/// Whether the characters are all decimal digits.
pub open spec fn all_digits(s: Seq<char>) -> bool {
    forall|i: int| 0 <= i < s.len() ==> '0' <= #[trigger] s[i] <= '9'
}

/// The number that decimal digits write.
pub open spec fn number_of(s: Seq<char>) -> nat
    decreases s.len(),
{
    if s.len() == 0 {
        0
    } else {
        number_of(s.drop_last()) * 10 + (s.last() as nat - 48) as nat
    }
}

/// The number of lines that a text names: digits behind an optional plus
/// sign, if they fit in 32 bits.
pub open spec fn lines_of(text: Seq<char>) -> Option<u32> {
    let digits = if text.len() > 0 && text[0] == '+' {
        text.skip(1)
    } else {
        text
    };
    if digits.len() > 0 && all_digits(digits) && number_of(digits) <= u32::MAX {
        Some(number_of(digits) as u32)
    } else {
        None
    }
}

proof fn lemma_number_grows(s: Seq<char>, m: int)
    requires
        0 <= m <= s.len(),
        all_digits(s),
    ensures
        number_of(s.take(m)) <= number_of(s),
    decreases s.len() - m,
{
    if m < s.len() {
        lemma_number_grows(s, m + 1);
        assert(s.take(m + 1).drop_last() =~= s.take(m));
        assert('0' <= s[m] <= '9');
    } else {
        assert(s.take(m) =~= s);
    }
}

/// The number of scrollback lines that was typed; `None` leaves the
/// configured one.
pub fn scrollback_lines(text: &str) -> (lines: Option<u32>)
    ensures
        lines == lines_of(text@),
{
    let chars = chars_of(text);
    let start: usize = if chars.len() > 0 && chars[0] == '+' {
        1
    } else {
        0
    };
    let ghost digits = text@.skip(start as int);
    assert(text@.skip(0) =~= text@);
    if start == chars.len() {
        return None;
    }
    let mut number: u32 = 0;
    let mut i: usize = start;
    let mut valid = true;
    assert(digits.take(0) =~= Seq::empty());
    while i < chars.len()
        invariant
            chars@ == text@,
            digits == text@.skip(start as int),
            digits == (if text@.len() > 0 && text@[0] == '+' {
                text@.skip(1)
            } else {
                text@
            }),
            start <= i <= chars@.len(),
            forall|j: int| 0 <= j < i - start ==> '0' <= #[trigger] digits[j] <= '9',
            valid ==> number == number_of(digits.take(i - start)),
            !valid ==> all_digits(digits) ==> number_of(digits) > u32::MAX,
        decreases chars@.len() - i,
    {
        let c: char = chars[i];
        if c < '0' || c > '9' {
            assert(digits[i - start] == c);
            assert(!all_digits(digits));
            return None;
        }
        proof {
            assert(digits[i - start] == c);
            assert(digits.take(i - start + 1).drop_last() =~= digits.take(i - start));
        }
        if valid {
            let next: u64 = number as u64 * 10 + (c as u32 - 48) as u64;
            proof {
                assert(next == number_of(digits.take(i - start + 1)));
                if all_digits(digits) {
                    lemma_number_grows(digits, i - start + 1);
                }
            }
            if next > 0xffff_ffff {
                valid = false;
            } else {
                number = next as u32;
            }
        }
        i += 1;
    }
    assert(digits.take(digits.len() as int) =~= digits);
    if valid {
        Some(number)
    } else {
        None
    }
}

// ---------------------------------------------------------------------------
// Labels
// ---------------------------------------------------------------------------

/// The label of a normal or a bright color.
pub fn color_label(bright: bool, index: usize) -> (label: String)
    ensures
        label@ == (if bright {
            "Bright color "@
        } else {
            "Standard color "@
        }) + decimal(index as nat),
{
    let mut label = if bright {
        "Bright color ".to_string()
    } else {
        "Standard color ".to_string()
    };
    push_decimal(&mut label, index as u64);
    label
}

/// The hint of the scrollback entry: the configured number of lines.
pub fn scrollback_hint(lines: u32) -> (hint: String)
    ensures
        hint@ == decimal(lines as nat),
{
    let mut hint = String::new();
    push_decimal(&mut hint, lines as u64);
    assert(hint@ =~= decimal(lines as nat));
    hint
}

/// The entry "Custom" comes first and stands for no theme, and so does a theme
/// that is not known; every other entry stands for a theme of its own.
pub proof fn law_entries_stand_for_themes(names: Seq<Seq<char>>, theme: Seq<char>, entry: int)
    ensures
        theme_of(names, 0) is None,
        entry_of(names, None) == 0,
        !names.contains(theme) ==> entry_of(names, Some(theme)) == 0,
        names.contains(theme) ==> 0 < entry_of(names, Some(theme)) <= names.len(),
        0 < entry <= names.len() ==> theme_of(names, entry) == Some(names[entry - 1]),
        entry > names.len() ==> theme_of(names, entry) is None,
{
    if names.contains(theme) {
        names.index_of_first_ensures(theme);
    }
}

/// The entries of the modes are "Off", "Auto" and "Always", in this order.
pub proof fn law_modes_are_listed_in_order(entry: u32)
    ensures
        entry_of_mode(PredictiveEchoMode::Off) == 0,
        entry_of_mode(PredictiveEchoMode::Auto) == 1,
        entry_of_mode(PredictiveEchoMode::Always) == 2,
        entry > 2 ==> mode_of(entry) == PredictiveEchoMode::Auto,
{
}

proof fn lemma_number_of(digits: Seq<char>)
    requires
        all_digits(digits),
    ensures
        number_of(digits) == value_in_base(digits, 10),
    decreases digits.len(),
{
    if digits.len() > 0 {
        let front = digits.drop_last();
        assert forall|i: int| 0 <= i < front.len() implies '0' <= #[trigger] front[i] <= '9' by {
            assert(front[i] == digits[i]);
        }
        lemma_number_of(front);
        assert('0' <= digits[digits.len() - 1] <= '9');
    }
}

/// A number of lines that is typed as the hint shows it, with a plus sign or
/// without, configures that number. Anything else is refused: no digits, other
/// characters among them, or a number that does not fit.
pub proof fn law_typed_lines_are_configured(lines: u32, text: Seq<char>)
    ensures
        lines_of(decimal(lines as nat)) == Some(lines),
        lines_of(seq!['+'] + decimal(lines as nat)) == Some(lines),
        lines_of(Seq::empty()) is None,
        lines_of(seq!['+']) is None,
        text.len() > 0 && text[0] != '+' ==> {
            &&& (exists|i: int| 0 <= i < text.len() && !('0' <= #[trigger] text[i] <= '9'))
                ==> lines_of(text) is None
            &&& value_in_base(text, 10) > u32::MAX ==> lines_of(text) is None
        },
        lines_of(text) matches Some(n) ==> text.len() > 0 && n == value_in_base(
            if text[0] == '+' {
                text.skip(1)
            } else {
                text
            },
            10,
        ),
{
    let digits = decimal(lines as nat);
    law_decimal_is_read_back(lines as nat);
    assert('0' <= digits[0] <= '9');
    lemma_number_of(digits);
    assert((seq!['+'] + digits).skip(1) =~= digits);
    assert(seq!['+'].skip(1) =~= Seq::empty());
    if text.len() > 0 {
        let rest = if text[0] == '+' {
            text.skip(1)
        } else {
            text
        };
        if all_digits(rest) {
            lemma_number_of(rest);
        }
    }
}

} // verus!
