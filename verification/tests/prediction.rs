//! Predictive echo.

use ivyterm::tmux_widgets::prediction::{
    advance_origin, classify_commit, confirmed_graphemes, grapheme_cell_width, grapheme_offset,
    layout_cells, place_cells, pop_grapheme, CommitKind, PredictionState,
};

#[test]
fn classify_printable_and_japanese_as_append() {
    assert_eq!(classify_commit("a"), CommitKind::Append);
    assert_eq!(classify_commit("hello world"), CommitKind::Append);
    assert_eq!(classify_commit("こんにちは"), CommitKind::Append);
}

#[test]
fn classify_backspace() {
    assert_eq!(classify_commit("\x7f"), CommitKind::Backspace);
    assert_eq!(classify_commit("\x08"), CommitKind::Backspace);
}

#[test]
fn classify_control_input() {
    assert_eq!(classify_commit("\r"), CommitKind::Control);
    assert_eq!(classify_commit("\x1b[A"), CommitKind::Control);
    assert_eq!(classify_commit("\x1b\x7f"), CommitKind::Control);
    assert_eq!(classify_commit(""), CommitKind::Control);
    // A paste-sized commit is not typing
    assert_eq!(classify_commit(&"x".repeat(65)), CommitKind::Control);
}

#[test]
fn classify_counts_graphemes_not_characters() {
    assert_eq!(classify_commit(&"x".repeat(64)), CommitKind::Append);
    // 64 graphemes of two characters each
    assert_eq!(classify_commit(&"e\u{301}".repeat(64)), CommitKind::Append);
    assert_eq!(classify_commit(&"e\u{301}".repeat(65)), CommitKind::Control);
    // C1 control characters are control characters too
    assert_eq!(classify_commit("\u{9f}"), CommitKind::Control);
    assert_eq!(classify_commit("\u{a0}"), CommitKind::Append);
}

#[test]
fn pop_grapheme_handles_multibyte() {
    let mut text = String::from("aあ");
    assert!(pop_grapheme(&mut text));
    assert_eq!(text, "a");
    assert!(pop_grapheme(&mut text));
    assert_eq!(text, "");
    assert!(!pop_grapheme(&mut text));
}

#[test]
fn pop_grapheme_removes_whole_clusters() {
    let mut text = String::from("xe\u{301}");
    assert!(pop_grapheme(&mut text));
    assert_eq!(text, "x");
}

#[test]
fn confirmation_is_prefix_based() {
    assert_eq!(confirmed_graphemes("abc   ", "abc"), 3);
    assert_eq!(confirmed_graphemes("abx", "abc"), 2);
    assert_eq!(confirmed_graphemes("", "abc"), 0);
    assert_eq!(confirmed_graphemes("xbc", "abc"), 0);
    // Wide characters compare as graphemes, not cells
    assert_eq!(confirmed_graphemes("日本語です", "日本語"), 3);
    // Newlines from a wrapped row range are transparent
    assert_eq!(confirmed_graphemes("ab\ncd", "abcd"), 4);
}

#[test]
fn grapheme_offset_maps_to_bytes() {
    assert_eq!(grapheme_offset("abc", 2), 2);
    assert_eq!(grapheme_offset("あいう", 1), 3);
    assert_eq!(grapheme_offset("abc", 10), 3);
}

#[test]
fn layout_wraps_wide_characters() {
    // 4 columns: "aあi" -> a at col 0, あ (width 2) at col 1, i at col 3
    let (cells, caret) = layout_cells("aあi", 0, 4);
    assert_eq!(cells, vec![("a", 0, 0), ("あ", 1, 0), ("i", 3, 0)]);
    assert_eq!(caret, (0, 1), "caret wraps to the next row");

    // A wide character that does not fit at the right edge wraps whole
    let (cells, caret) = layout_cells("aあ", 3, 4);
    assert_eq!(cells, vec![("a", 3, 0), ("あ", 0, 1)]);
    assert_eq!(caret, (2, 1));
}

#[test]
fn origin_advances_with_wrapping() {
    assert_eq!(advance_origin((2, 10), "ab", 80), (4, 10));
    assert_eq!(advance_origin((78, 10), "abc", 80), (1, 11));
    assert_eq!(advance_origin((0, 5), "日本", 80), (4, 5));
}

#[test]
fn echo_in_parts_leads_to_the_same_origin() {
    let whole = advance_origin((76, 0), "ab日本cd", 80);
    let part = advance_origin((76, 0), "ab日", 80);
    assert_eq!(advance_origin(part, "本cd", 80), whole);
}

#[test]
fn zero_width_graphemes_occupy_a_cell() {
    assert_eq!(grapheme_cell_width("\u{200b}"), 1);
    assert_eq!(grapheme_cell_width("あ"), 2);
    assert_eq!(grapheme_cell_width("a"), 1);
}

#[test]
fn cells_are_placed_in_order() {
    let (cells, caret) = place_cells(&vec![1, 2, 2], 0, 4);
    assert_eq!(cells, vec![(0, 0), (1, 0), (0, 1)]);
    assert_eq!(caret, (2, 1));
}

#[test]
fn discard_hides_the_prediction() {
    let mut state = PredictionState::default();
    assert_eq!(state.text, "");
    assert_eq!(state.origin, (0, 0));
    assert!(!state.display_unlocked);
    state.text.push('x');
    state.origin = (3, 4);
    state.display_unlocked = true;
    state.discard();
    assert_eq!(state.text, "");
    assert_eq!(state.origin, (3, 4));
    assert!(!state.display_unlocked);
    assert_eq!(state.generation, 1);
}

#[test]
fn row_ends_are_transparent() {
    assert_eq!(confirmed_graphemes("ab\r\ncd", "abcd"), 4);
    assert_eq!(confirmed_graphemes("ab\rcd", "abcd"), 4);
    assert_eq!(confirmed_graphemes("\r\n\nab\r\n", "abcd"), 2);
}

#[test]
fn popping_and_cutting_follow_the_clusters() {
    // An accent belongs to its letter
    let mut text = String::from("xe\u{301}");
    assert_eq!(grapheme_offset(&text, 1), 1);
    assert_eq!(grapheme_offset(&text, 2), 4);
    assert_eq!(grapheme_offset(&text, 0), 0);
    assert!(pop_grapheme(&mut text));
    assert_eq!(text, "x");

    let (cells, _) = layout_cells("e\u{301}日x", 0, 80);
    let joined: String = cells.iter().map(|cell| cell.0).collect();
    assert_eq!(joined, "e\u{301}日x");
}

#[test]
fn predictions_are_hidden_until_something_is_echoed() {
    let mut state = PredictionState::default();
    state.commit("ab", (78, 10));
    state.commit("cd", (5, 5));
    assert_eq!(state.text, "abcd");
    assert_eq!(state.origin, (78, 10));
    assert_eq!(state.generation, 2);
    assert!(!state.is_visible());

    // Nothing confirmed, nothing changed
    assert!(state.fits());
    state.reconcile("xb", 80);
    assert_eq!(state.generation, 2);
    assert!(!state.is_visible());

    // The first three are echoed, across the end of a row
    state.reconcile("ab\r\nc ", 80);
    assert_eq!(state.text, "d");
    assert_eq!(state.origin, (1, 11));
    assert_eq!(state.generation, 3);
    assert!(state.is_visible());

    // A backspace takes the rest back; the next one cannot be predicted
    state.commit("\x7f", (2, 11));
    assert_eq!(state.text, "");
    assert!(!state.is_visible() && state.display_unlocked);
    state.commit("\x7f", (1, 11));
    assert!(!state.display_unlocked);
    assert_eq!(state.generation, 5);
}

#[test]
fn unpredictable_input_and_timeouts_discard() {
    let mut state = PredictionState::default();
    state.commit("a", (0, 0));
    state.reconcile("a", 80);
    state.commit("b", (1, 0));
    assert!(state.is_visible());
    state.commit("\r", (2, 0));
    assert!(!state.is_visible());
    assert_eq!(state.text, "");

    state.commit("c", (0, 1));
    let generation = state.generation;
    state.commit("d", (1, 1));
    assert!(!state.expire(generation));
    assert_eq!(state.text, "cd");
    assert!(state.expire(generation + 1));
    assert_eq!(state.text, "");

    state.commit("e", (0, 1));
    state.origin = (i64::MAX - 3, 0);
    assert!(!state.fits());
    state.origin = (i64::MAX - 4, 0);
    assert!(state.fits());
}
