//! Output of a pane.

use ivyterm::tmux_widgets::terminal::{
    filter_mouse_tracking, is_mouse_tracking_param, TmuxTerminal,
};

fn filter_all(chunks: &[&[u8]]) -> Vec<u8> {
    let mut pending = Vec::new();
    let mut output = Vec::new();
    for chunk in chunks {
        output.extend_from_slice(&filter_mouse_tracking(&mut pending, chunk));
    }
    // Nothing may be lost: a held-back tail belongs to the next chunk,
    // which in these tests never comes
    output.extend_from_slice(&pending);
    output
}

#[test]
fn plain_text_passes_through() {
    assert_eq!(filter_all(&[b"hello \x1b[1;31mworld\x1b[0m"]), b"hello \x1b[1;31mworld\x1b[0m");
}

#[test]
fn mouse_tracking_requests_are_dropped() {
    assert_eq!(filter_all(&[b"a\x1b[?1002hb"]), b"ab");
    assert_eq!(filter_all(&[b"a\x1b[?1000;1006hb"]), b"ab");
    assert_eq!(filter_all(&[b"a\x1b[?1003;1015lb"]), b"ab");
    assert_eq!(filter_all(&[b"a\x1b[?9hb"]), b"ab");
}

#[test]
fn other_private_modes_are_kept() {
    assert_eq!(filter_all(&[b"\x1b[?2004h"]), b"\x1b[?2004h");
    assert_eq!(filter_all(&[b"\x1b[?1049h"]), b"\x1b[?1049h");
    assert_eq!(filter_all(&[b"\x1b[?25l"]), b"\x1b[?25l");
}

#[test]
fn mixed_parameters_keep_the_non_mouse_ones() {
    assert_eq!(filter_all(&[b"\x1b[?1002;2004h"]), b"\x1b[?2004h");
    assert_eq!(filter_all(&[b"\x1b[?2004;1006;25h"]), b"\x1b[?2004;25h");
}

#[test]
fn sequences_split_across_chunks_are_still_filtered() {
    assert_eq!(filter_all(&[b"a\x1b[?10", b"02hb"]), b"ab");
    assert_eq!(filter_all(&[b"a\x1b", b"[?1006;100", b"0hb"]), b"ab");
    assert_eq!(filter_all(&[b"a\x1b", b"[?2004hb"]), b"a\x1b[?2004hb");
}

#[test]
fn non_decset_escapes_pass_through_unharmed() {
    // Cursor movement, OSC, charset selection
    assert_eq!(filter_all(&[b"\x1b[10;20H"]), b"\x1b[10;20H");
    assert_eq!(filter_all(&[b"\x1b]0;title\x07"]), b"\x1b]0;title\x07");
    assert_eq!(filter_all(&[b"\x1b(B"]), b"\x1b(B");
}

#[test]
fn overlong_private_sequence_is_not_held_forever() {
    let mut data = b"\x1b[?".to_vec();
    data.extend_from_slice(&[b'1'; 100]);
    assert_eq!(filter_all(&[&data]), data);
}

#[test]
fn every_cut_gives_the_same_output() {
    let data = b"x\x1b[?1000;25hy\x1b[?1006lz\x1b[1mA\x1b[?2004h";
    let whole = filter_all(&[data]);
    assert_eq!(whole, b"x\x1b[?25hyz\x1b[1mA\x1b[?2004h");
    for cut in 0..data.len() {
        assert_eq!(filter_all(&[&data[..cut], &data[cut..]]), whole);
    }
}

#[test]
fn empty_and_other_private_sequences_are_kept() {
    assert_eq!(filter_all(&[b"\x1b[?h"]), b"\x1b[?h");
    assert_eq!(filter_all(&[b"\x1b[?1000n"]), b"\x1b[?1000n");
    assert_eq!(filter_all(&[b"\x1b[?1000;;1006h"]), b"\x1b[?h");
}

#[test]
fn hold_ends_at_the_limit() {
    let mut pending = Vec::new();
    let mut data = b"\x1b[?".to_vec();
    data.extend_from_slice(&[b'1'; 60]);
    assert_eq!(filter_mouse_tracking(&mut pending, &data), b"");
    assert_eq!(pending, data);
    assert_eq!(filter_mouse_tracking(&mut pending, b"1"), [&data[..], b"1"].concat());
    assert!(pending.is_empty());
}

#[test]
fn mouse_parameters_are_exactly_these() {
    for param in ["9", "1000", "1001", "1002", "1003", "1005", "1006", "1015", "1016"] {
        assert!(is_mouse_tracking_param(param.as_bytes()));
    }
    for param in ["", "8", "99", "1004", "1007", "1014", "1025", "2004", "10000"] {
        assert!(!is_mouse_tracking_param(param.as_bytes()));
    }
}

#[test]
fn output_waits_for_the_initial_output() {
    let mut terminal = TmuxTerminal::new(4, false);
    assert_eq!(terminal.id(), 4);
    assert!(!terminal.is_synced());
    assert_eq!(terminal.feed_output(b"early", false), None);
    assert_eq!(terminal.scroll_view(2), None);
    assert_eq!(terminal.feed_output(b"first\x1b[?10", true), Some(b"first".to_vec()));
    terminal.initial_output_finished();
    assert!(terminal.is_synced());
    assert_eq!(terminal.feed_output(b"00hnext", false), Some(b"next".to_vec()));
    assert!(TmuxTerminal::new(1, true).is_synced());
}

#[test]
fn view_scrolls_down_and_back_up() {
    let mut terminal = TmuxTerminal::new(1, true);
    assert_eq!(terminal.scroll_view(0), None);
    assert_eq!(terminal.scroll_view(3), Some(b"\n\n\n\x1b[3A".to_vec()));
    let twelve = terminal.scroll_view(12).unwrap();
    assert_eq!(&twelve[12..], b"\x1b[12A");
    assert_eq!(terminal.clear_scrollback(), b"\x1b[3J");
}

#[test]
fn selection_sync_is_debounced() {
    let mut terminal = TmuxTerminal::new(1, true);
    assert!(!terminal.selection_changed(false));
    assert!(terminal.selection_changed(true));
    assert!(!terminal.selection_changed(true));
    assert!(!terminal.selection_sync_due(false));
    assert!(terminal.selection_changed(true));
    assert!(terminal.selection_sync_due(true));
    assert!(terminal.selection_changed(true));
}

#[test]
fn requests_behind_unfinished_sequences_are_dropped() {
    assert_eq!(filter_all(&[b"\x1b[?10\x1b[?1000h"]), b"\x1b[?10");
    assert_eq!(filter_all(&[b"a\x1b[?10", b"\x1b[?1000hb"]), b"a\x1b[?10b");
    assert_eq!(filter_all(&[b"\x1b[\x1b[?1002;25h"]), b"\x1b[\x1b[?25h");
    assert_eq!(filter_all(&[b"\x1b\x1b[?9l"]), b"\x1b");
    // Neither are other sequences harmed there
    assert_eq!(filter_all(&[b"\x1b[?10\x1b[1mb"]), b"\x1b[?10\x1b[1mb");
}

#[test]
fn output_without_mouse_requests_is_untouched() {
    for output in [
        &b"\x1b[?2004;25h text \x1b[?h\x1b[?;l\x1b[?1049l"[..],
        b"\x1b[?10000h\x1b[?1000n\x1b[?1002",
        b"\x1b[?90;09;10h\x1b[1000h",
    ] {
        assert_eq!(filter_all(&[output]), output);
    }
    // One parameter among others is enough to be rewritten
    assert_eq!(filter_all(&[b"\x1b[?25;9;7h"]), b"\x1b[?25;7h");
}
