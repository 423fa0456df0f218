//! Per-launch composed window icons.
//!
//! A custom "badge" icon (the ivyTerm logo with its terminal background
//! recolored to identify the connection target, and a short session label)
//! is composed as an SVG.

use vstd::prelude::*;

use crate::config::terminal::rgb;
use crate::config::IvyColor;
use crate::text::{
    chars_of, contains_text, decimal, find_first, find_last, first_occurrence, hex_byte,
    last_occurrence, law_each_occurrence_is_replaced, law_first_occurrence_is_found,
    law_last_occurrence_is_found, law_other_text_is_not_replaced, lemma_replaced_adds_nothing,
    lemma_replaced_concat, lemma_replaced_one, lemma_replaced_removes, occurs_at, push_decimal,
    push_hex_byte, replace_all, replaced, string_of,
};

verus! {

/// The application id, which also names the base (unbadged) icon
pub const BASE_APP_ID: &'static str = "com.tomiyou.ivyTerm";

/// Longest badge text that stays legible in the icon
pub const MAX_BADGE_CHARS: usize = 3;

/// Rendered icon resolution (the SVG viewBox is 128)
pub const RENDER_SIZE: u32 = 256;

/// Whether a window gets a badge: where a color or a text was given.
pub fn wants_badge(color: Option<&str>, text: Option<&str>) -> (r: bool)
    ensures
        r == (color is Some || text is Some),
{
    color.is_some() || text.is_some()
}

/// The logo's original terminal background (near-black), so a text-only
/// badge keeps the standard look
pub fn default_badge_color() -> (r: IvyColor)
    ensures
        r == rgb(0x1a, 0x1a, 0x1a),
{
    IvyColor { red: 0x1a, green: 0x1a, blue: 0x1a }
}

/// Keeps at most MAX_BADGE_CHARS characters (counted as Unicode scalar
/// values, which is adequate for the short labels this targets)
pub fn trim_badge_text(text: &str) -> (r: String)
    ensures
        r@ == (if text@.len() <= MAX_BADGE_CHARS {
            text@
        } else {
            text@.take(MAX_BADGE_CHARS as int)
        }),
{
    let chars = chars_of(text);
    let n: usize = if chars.len() <= MAX_BADGE_CHARS {
        chars.len()
    } else {
        MAX_BADGE_CHARS
    };
    assert(text@.subrange(0, n as int) =~= text@.take(n as int));
    assert(text@.take(text@.len() as int) =~= text@);
    string_of(chars.as_slice(), 0, n)
}

/// A color as it is written in the SVG: `#rrggbb`.
pub fn rgba_to_hex(red: u8, green: u8, blue: u8) -> (hex: String)
    ensures
        hex@ == seq!['#'] + hex_byte(red, false) + hex_byte(green, false) + hex_byte(blue, false),
{
    let mut hex = String::new();
    hex.push('#');
    assert(hex@ =~= seq!['#']);
    push_hex_byte(&mut hex, red, false);
    push_hex_byte(&mut hex, green, false);
    push_hex_byte(&mut hex, blue, false);
    hex
}

/// Text as it stands between the tags of an XML element.
pub open spec fn xml_text(text: Seq<char>) -> Seq<char> {
    replaced(replaced(replaced(text, "&"@, "&amp;"@), "<"@, "&lt;"@), ">"@, "&gt;"@)
}

pub fn escape_xml(text: &str) -> (r: String)
    ensures
        r@ == xml_text(text@),
{
    proof {
        reveal_strlit("&");
        reveal_strlit("<");
        reveal_strlit(">");
    }
    let text = replace_all(text, "&", "&amp;");
    let text = replace_all(text.as_str(), "<", "&lt;");
    replace_all(text.as_str(), ">", "&gt;")
}

/// Escaped text holds no markup.
pub proof fn law_escaped_text_is_no_markup(text: Seq<char>)
    ensures
        !xml_text(text).contains('<'),
        !xml_text(text).contains('>'),
{
    reveal_strlit("&");
    reveal_strlit("<");
    reveal_strlit(">");
    reveal_strlit("&amp;");
    reveal_strlit("&lt;");
    reveal_strlit("&gt;");
    assert("<"@ =~= seq!['<']);
    assert(">"@ =~= seq!['>']);
    let first = replaced(text, "&"@, "&amp;"@);
    let second = replaced(first, "<"@, "&lt;"@);
    assert forall|i: int| 0 <= i < "&lt;"@.len() implies "&lt;"@[i] != '<' by {}
    assert forall|i: int| 0 <= i < "&gt;"@.len() implies "&gt;"@[i] != '<' && "&gt;"@[i] != '>' by {}
    lemma_replaced_removes(first, '<', "&lt;"@);
    lemma_replaced_adds_nothing(second, '>', "&gt;"@, '<');
    lemma_replaced_removes(second, '>', "&gt;"@);
}

// ---------------------------------------------------------------------------
// The logo
// ---------------------------------------------------------------------------

/// Where the children of the root `<svg>` start: behind the tag.
pub open spec fn inner_start(logo: Seq<char>) -> Option<int> {
    match first_occurrence(logo, "<svg"@, 0) {
        None => None,
        Some(tag) => match first_occurrence(logo, ">"@, tag) {
            None => None,
            Some(end) => Some(end + 1),
        },
    }
}

/// Where the children of the root `<svg>` end: at its closing tag.
pub open spec fn inner_end(logo: Seq<char>) -> int {
    match last_occurrence(logo, "</svg>"@, logo.len() as int) {
        Some(end) => end,
        None => logo.len() as int,
    }
}

/// Whether the root `<svg>` of a logo does not end before it starts.
pub open spec fn is_logo(logo: Seq<char>) -> bool {
    inner_start(logo) matches Some(start) ==> start <= inner_end(logo)
}

/// The children of the root `<svg>`.
pub open spec fn inner(logo: Seq<char>) -> Seq<char> {
    match inner_start(logo) {
        Some(start) => logo.subrange(start, inner_end(logo)),
        None => Seq::empty(),
    }
}

/// Whether the text can be used as a logo.
pub fn check_logo(logo: &str) -> (r: bool)
    ensures
        r == is_logo(logo@),
{
    match find_inner(logo) {
        Some((start, end)) => start <= end,
        None => true,
    }
}

/// Where the children of the root `<svg>` start and end.
fn find_inner(logo: &str) -> (r: Option<(usize, usize)>)
    ensures
        match r {
            Some((start, end)) => inner_start(logo@) == Some(start as int) && inner_end(logo@)
                == end && end <= logo@.len(),
            None => inner_start(logo@) is None,
        },
{
    let chars = chars_of(logo);
    let total: usize = chars.len();
    let open = chars_of("<svg");
    let angle = chars_of(">");
    let close = chars_of("</svg>");
    proof {
        reveal_strlit(">");
    }
    let tag: usize = match find_first(chars.as_slice(), open.as_slice(), 0) {
        Some(tag) => tag,
        None => return None,
    };
    let start: usize = match find_first(chars.as_slice(), angle.as_slice(), tag) {
        Some(end) => end + 1,
        None => return None,
    };
    let end: usize = match find_last(chars.as_slice(), close.as_slice()) {
        Some(end) => end,
        None => total,
    };
    Some((start, end))
}

/// Drawable content of a logo (children of its root `<svg>`), so it can be
/// nested inside the generated badge SVG
pub fn logo_inner(logo: &str) -> (r: String)
    requires
        is_logo(logo@),
    ensures
        r@ == inner(logo@),
{
    match find_inner(logo) {
        Some((start, end)) => {
            let chars = chars_of(logo);
            string_of(chars.as_slice(), start, end)
        },
        None => String::new(),
    }
}

/// The logo with its terminal background (a near-black rounded rect) in
/// another color.
pub open spec fn recolored(svg: Seq<char>, color: Seq<char>) -> Seq<char> {
    replaced(svg, "fill:#1a1a1a"@, "fill:"@ + color)
}

/// Recolors only the terminal-background fill of the logo, leaving the rest
/// (the prompt, the ivy) in its original colors
pub fn recolor_terminal_bg(svg: &str, color_hex: &str) -> (r: String)
    ensures
        r@ == recolored(svg@, color_hex@),
{
    proof {
        reveal_strlit("fill:#1a1a1a");
    }
    let mut fill = "fill:".to_string();
    fill.append(color_hex);
    replace_all(svg, "fill:#1a1a1a", fill.as_str())
}

/// The size of a label of so many characters.
pub open spec fn label_size(chars: nat) -> nat {
    if chars == 1 {
        56
    } else if chars == 2 {
        46
    } else {
        38
    }
}

/// The element that draws the label.
pub open spec fn label(text_color: Seq<char>, text: Seq<char>) -> Seq<char> {
    "<text x=\"60\" y=\"52\" font-family=\"monospace\" font-weight=\"bold\" font-size=\""@
        + decimal(label_size(text.len())) + "\" fill=\""@ + text_color
        + "\" text-anchor=\"middle\" dominant-baseline=\"central\">"@ + xml_text(text) + "</text>"@
}

/// The drawn logo, its terminal background in another color. With a label,
/// the (white) prompt glyphs are hidden; a background that becomes white is
/// not one of them.
pub open spec fn drawn_logo(logo: Seq<char>, color: Seq<char>, labelled: bool) -> Seq<char> {
    recolored(
        if labelled {
            replaced(inner(logo), "fill:#ffffff"@, "fill:none"@)
        } else {
            inner(logo)
        },
        color,
    )
}

/// The badge. With a label, the prompt glyphs are hidden and the label is
/// drawn in the terminal screen in their place.
pub open spec fn badge(
    logo: Seq<char>,
    color: Seq<char>,
    text_color: Seq<char>,
    text: Seq<char>,
) -> Seq<char> {
    "<?xml version=\"1.0\" encoding=\"UTF-8\"?>\n<svg xmlns=\"http://www.w3.org/2000/svg\" xmlns:sodipodi=\"http://sodipodi.sourceforge.net/DTD/sodipodi-0.0.dtd\" xmlns:inkscape=\"http://www.inkscape.org/namespaces/inkscape\" width=\"128\" height=\"128\" viewBox=\"0 0 128 128\">\n  <g transform=\"scale(0.03125)\">"@
        + drawn_logo(logo, color, text.len() > 0) + "</g>\n  "@ + (if text.len() == 0 {
        Seq::empty()
    } else {
        label(text_color, text)
    }) + "\n</svg>\n"@
}

/// SVG for the badge: the ivyTerm logo with its terminal background recolored
/// to the connection color. With a session label, the prompt glyphs are
/// hidden and the label is drawn in the terminal screen in their place.
pub fn badge_svg(logo: &str, color_hex: &str, text_color_hex: &str, text: &str) -> (svg: String)
    requires
        is_logo(logo@),
    ensures
        svg@ == badge(logo@, color_hex@, text_color_hex@, text@),
{
    proof {
        reveal_strlit("fill:#ffffff");
    }
    let mut inside = logo_inner(logo);
    let count: usize = chars_of(text).len();
    // The inlined logo carries sodipodi:/inkscape: prefixed nodes; declare
    // those namespaces on the root so the generated SVG is valid XML
    let mut svg =
        "<?xml version=\"1.0\" encoding=\"UTF-8\"?>\n<svg xmlns=\"http://www.w3.org/2000/svg\" xmlns:sodipodi=\"http://sodipodi.sourceforge.net/DTD/sodipodi-0.0.dtd\" xmlns:inkscape=\"http://www.inkscape.org/namespaces/inkscape\" width=\"128\" height=\"128\" viewBox=\"0 0 128 128\">\n  <g transform=\"scale(0.03125)\">".to_string();
    if count > 0 {
        // The label sits where the prompt was, so hide the prompt glyphs
        // (before a white background joins them)
        inside = replace_all(inside.as_str(), "fill:#ffffff", "fill:none");
    }
    let drawn = recolor_terminal_bg(inside.as_str(), color_hex);
    svg.append(drawn.as_str());
    svg.append("</g>\n  ");
    let ghost front = svg@;
    if count > 0 {
        let size: u64 = if count == 1 {
            56
        } else if count == 2 {
            46
        } else {
            38
        };
        svg.append(
            "<text x=\"60\" y=\"52\" font-family=\"monospace\" font-weight=\"bold\" font-size=\"",
        );
        push_decimal(&mut svg, size);
        svg.append("\" fill=\"");
        svg.append(text_color_hex);
        svg.append("\" text-anchor=\"middle\" dominant-baseline=\"central\">");
        let escaped = escape_xml(text);
        svg.append(escaped.as_str());
        svg.append("</text>");
        assert(svg@ =~= front + label(text_color_hex@, text@));
    } else {
        assert(svg@ =~= front + Seq::empty());
    }
    svg.append("\n</svg>\n");
    svg
}

/// Composes the badge of a window: from the parsed color, where there is one
/// that could be parsed, and from the first characters of the text. The text
/// is drawn in `text_color_hex`, which contrasts with the color.
pub fn compose_badge(
    logo: &str,
    color: Option<(u8, u8, u8)>,
    text_color_hex: &str,
    text: Option<&str>,
) -> (svg: String)
    requires
        is_logo(logo@),
    ensures
        ({
            let (red, green, blue) = match color {
                Some(channels) => channels,
                None => (0x1au8, 0x1au8, 0x1au8),
            };
            let given = match text {
                Some(text) => text@,
                None => Seq::empty(),
            };
            svg@ == badge(
                logo@,
                seq!['#'] + hex_byte(red, false) + hex_byte(green, false) + hex_byte(blue, false),
                text_color_hex@,
                if given.len() <= MAX_BADGE_CHARS {
                    given
                } else {
                    given.take(MAX_BADGE_CHARS as int)
                },
            )
        }),
{
    let (red, green, blue) = match color {
        Some(channels) => channels,
        None => (0x1a, 0x1a, 0x1a),
    };
    let color_hex = rgba_to_hex(red, green, blue);
    let label = match text {
        Some(text) => trim_badge_text(text),
        None => String::new(),
    };
    badge_svg(logo, color_hex.as_str(), text_color_hex, label.as_str())
}

// ---------------------------------------------------------------------------
// Laws
// ---------------------------------------------------------------------------

/// Text is escaped character by character: the three characters of markup
/// become their entities, and every other one stays.
pub proof fn law_markup_becomes_entities(a: Seq<char>, b: Seq<char>, c: char)
    ensures
        xml_text(a + b) == xml_text(a) + xml_text(b),
        xml_text(seq!['&']) == "&amp;"@,
        xml_text(seq!['<']) == "&lt;"@,
        xml_text(seq!['>']) == "&gt;"@,
        c != '&' && c != '<' && c != '>' ==> xml_text(seq![c]) == seq![c],
        xml_text(Seq::empty()) == Seq::<char>::empty(),
{
    reveal_strlit("&");
    reveal_strlit("<");
    reveal_strlit(">");
    reveal_strlit("&amp;");
    reveal_strlit("&lt;");
    reveal_strlit("&gt;");
    assert("&"@ =~= seq!['&']);
    assert("<"@ =~= seq!['<']);
    assert(">"@ =~= seq!['>']);
    let amp = "&amp;"@;
    let lt = "&lt;"@;
    let gt = "&gt;"@;
    lemma_replaced_concat(a, b, '&', amp);
    let a1 = replaced(a, "&"@, amp);
    let b1 = replaced(b, "&"@, amp);
    lemma_replaced_concat(a1, b1, '<', lt);
    lemma_replaced_concat(replaced(a1, "<"@, lt), replaced(b1, "<"@, lt), '>', gt);
    lemma_replaced_one('&', '&', amp);
    lemma_replaced_one('<', '&', amp);
    lemma_replaced_one('>', '&', amp);
    lemma_replaced_one(c, '&', amp);
    lemma_replaced_one('<', '<', lt);
    lemma_replaced_one('>', '<', lt);
    lemma_replaced_one(c, '<', lt);
    lemma_replaced_one('>', '>', gt);
    lemma_replaced_one(c, '>', gt);
    lemma_without(amp, '<');
    lemma_without(amp, '>');
    lemma_without(lt, '>');
    law_other_text_is_not_replaced(amp, "<"@, lt);
    law_other_text_is_not_replaced(amp, ">"@, gt);
    law_other_text_is_not_replaced(lt, ">"@, gt);
}

proof fn lemma_without(s: Seq<char>, c: char)
    requires
        forall|i: int| 0 <= i < s.len() ==> s[i] != c,
    ensures
        !contains_text(s, seq![c]),
{
    if contains_text(s, seq![c]) {
        let i = choose|i: int| #[trigger] occurs_at(s, seq![c], i);
        assert(s.subrange(i, i + 1)[0] == c);
    }
}

/// The drawn part of a logo is what stands between the tag of its root and the
/// last closing tag.
pub proof fn law_logos_are_unwrapped(
    before: Seq<char>,
    attributes: Seq<char>,
    body: Seq<char>,
    behind: Seq<char>,
)
    requires
        ({
            let logo = before + "<svg"@ + attributes + ">"@ + body + "</svg>"@ + behind;
            let end = before.len() + 4 + attributes.len() + 1 + body.len();
            &&& forall|i: int| 0 <= i < before.len() ==> !#[trigger] occurs_at(logo, "<svg"@, i)
            &&& forall|i: int| end < i <= logo.len() ==> !#[trigger] occurs_at(logo, "</svg>"@, i)
        }),
        !attributes.contains('>'),
    ensures
        ({
            let logo = before + "<svg"@ + attributes + ">"@ + body + "</svg>"@ + behind;
            inner(logo) == body && is_logo(logo)
        }),
{
    reveal_strlit("<svg");
    reveal_strlit(">");
    reveal_strlit("</svg>");
    let logo = before + "<svg"@ + attributes + ">"@ + body + "</svg>"@ + behind;
    let tag = before.len() as int;
    let angle = tag + 4 + attributes.len();
    let end = angle + 1 + body.len();
    assert(logo.subrange(tag, tag + 4) =~= "<svg"@);
    assert(occurs_at(logo, "<svg"@, tag));
    law_first_occurrence_is_found(logo, "<svg"@, 0, tag);
    assert(logo.subrange(angle, angle + 1) =~= ">"@);
    assert(occurs_at(logo, ">"@, angle));
    assert forall|i: int| tag <= i < angle implies !#[trigger] occurs_at(logo, ">"@, i) by {
        if occurs_at(logo, ">"@, i) {
            assert(logo.subrange(i, i + 1)[0] == '>');
            if i < tag + 4 {
                assert(logo[i] == "<svg"@[i - tag]);
            } else {
                assert(attributes[i - tag - 4] == '>');
            }
        }
    }
    law_first_occurrence_is_found(logo, ">"@, tag, angle);
    assert(logo.subrange(end, end + 6) =~= "</svg>"@);
    assert(occurs_at(logo, "</svg>"@, end));
    law_last_occurrence_is_found(logo, "</svg>"@, logo.len() as int, end);
    assert(logo.subrange(angle + 1, end) =~= body);
}

/// The terminal background, and nothing else, takes the color of the badge:
/// the first near-black fill does, what stands before it stays, and what stands
/// behind it is treated alike. A logo without one stays as it is.
pub proof fn law_backgrounds_take_the_color(svg: Seq<char>, at: int, color: Seq<char>)
    ensures
        !contains_text(svg, "fill:#1a1a1a"@) ==> recolored(svg, color) == svg,
        occurs_at(svg, "fill:#1a1a1a"@, at) && (forall|i: int|
            0 <= i < at ==> !#[trigger] occurs_at(svg, "fill:#1a1a1a"@, i)) ==> recolored(svg, color)
            == svg.take(at) + ("fill:"@ + color) + recolored(svg.skip(at + 12), color),
{
    reveal_strlit("fill:#1a1a1a");
    let with = "fill:"@ + color;
    if !contains_text(svg, "fill:#1a1a1a"@) {
        law_other_text_is_not_replaced(svg, "fill:#1a1a1a"@, with);
    }
    if occurs_at(svg, "fill:#1a1a1a"@, at) && (forall|i: int|
        0 <= i < at ==> !#[trigger] occurs_at(svg, "fill:#1a1a1a"@, i)) {
        law_each_occurrence_is_replaced(svg, at, "fill:#1a1a1a"@, with);
    }
}

/// A label hides the white glyphs of the prompt and changes nothing else of the
/// drawn logo: one without such glyphs is drawn with a label as without, even
/// where the badge itself is white.
pub proof fn law_labels_hide_only_the_prompt(logo: Seq<char>, color: Seq<char>)
    requires
        !contains_text(inner(logo), "fill:#ffffff"@),
    ensures
        drawn_logo(logo, color, true) == drawn_logo(logo, color, false),
        drawn_logo(logo, color, false) == recolored(inner(logo), color),
{
    law_other_text_is_not_replaced(inner(logo), "fill:#ffffff"@, "fill:none"@);
}

/// The prompt is hidden first: up to the first glyph of it, the logo is drawn
/// with a label as it stands there, and the glyph is not drawn.
pub proof fn law_prompts_are_hidden(logo: Seq<char>, color: Seq<char>, at: int)
    requires
        occurs_at(inner(logo), "fill:#ffffff"@, at),
        forall|i: int| 0 <= i < at ==> !#[trigger] occurs_at(inner(logo), "fill:#ffffff"@, i),
    ensures
        drawn_logo(logo, color, true) == recolored(
            inner(logo).take(at) + "fill:none"@ + replaced(
                inner(logo).skip(at + 12),
                "fill:#ffffff"@,
                "fill:none"@,
            ),
            color,
        ),
{
    reveal_strlit("fill:#ffffff");
    law_each_occurrence_is_replaced(inner(logo), at, "fill:#ffffff"@, "fill:none"@);
}

/// The fewer characters a label has, the larger they are: 56, 46 and 38 for
/// one, two and three.
pub proof fn law_short_labels_are_large()
    ensures
        label_size(1) == 56,
        label_size(2) == 46,
        label_size(3) == 38,
{
}

/// A badge shows its logo, and its label in the color of the text; without a
/// label the color of the text means nothing, and nothing is written.
pub proof fn law_badges_show_logo_and_label(
    logo: Seq<char>,
    color: Seq<char>,
    text_color: Seq<char>,
    other: Seq<char>,
    text: Seq<char>,
)
    ensures
        badge(logo, color, text_color, Seq::empty()) == badge(logo, color, other, Seq::empty()),
        contains_text(badge(logo, color, text_color, text), drawn_logo(logo, color, text.len() > 0)),
        text.len() > 0 ==> contains_text(
            badge(logo, color, text_color, text),
            "\" fill=\""@ + text_color
                + "\" text-anchor=\"middle\" dominant-baseline=\"central\">"@ + xml_text(text)
                + "</text>"@,
        ),
{
    let whole = badge(logo, color, text_color, text);
    let drawn = drawn_logo(logo, color, text.len() > 0);
    let head =
        "<?xml version=\"1.0\" encoding=\"UTF-8\"?>\n<svg xmlns=\"http://www.w3.org/2000/svg\" xmlns:sodipodi=\"http://sodipodi.sourceforge.net/DTD/sodipodi-0.0.dtd\" xmlns:inkscape=\"http://www.inkscape.org/namespaces/inkscape\" width=\"128\" height=\"128\" viewBox=\"0 0 128 128\">\n  <g transform=\"scale(0.03125)\">"@;
    let at = head.len() as int;
    assert(whole.subrange(at, at + drawn.len()) =~= drawn);
    assert(occurs_at(whole, drawn, at));
    if text.len() > 0 {
        let size = "<text x=\"60\" y=\"52\" font-family=\"monospace\" font-weight=\"bold\" font-size=\""@
            + decimal(label_size(text.len()));
        let shown = "\" fill=\""@ + text_color
            + "\" text-anchor=\"middle\" dominant-baseline=\"central\">"@ + xml_text(text)
            + "</text>"@;
        let front = head + drawn + "</g>\n  "@ + size;
        assert(label(text_color, text) =~= size + shown);
        assert(whole =~= front + shown + "\n</svg>\n"@);
        let i = front.len() as int;
        assert(whole.subrange(i, i + shown.len()) =~= shown);
        assert(occurs_at(whole, shown, i));
    }
}

} // verus!
