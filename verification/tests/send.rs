//! Commands sent to Tmux.

use ivyterm::keyboard::{handle_keyboard, handle_keyboard_event};
use ivyterm::keyboard::{Direction, KeyboardAction, NormalKeyRoute, TmuxKeyRoute};
use ivyterm::tmux_api::receive::parse_escaped_output;
use ivyterm::tmux_api::send::{escape_for_tmux_quotes, Outgoing, MAX_SYNC_BYTES};
use ivyterm::tmux_api::{Orientation, TmuxAPI, TmuxCommand};

#[test]
fn escape_passes_safe_characters_through() {
    assert_eq!(
        escape_for_tmux_quotes("hello World.txt /path:2, a=b+c@d"),
        "hello World.txt /path:2, a=b+c@d"
    );
}

#[test]
fn escape_encodes_tmux_metacharacters() {
    // Quote and backslash would break out of the double-quoted string
    assert_eq!(escape_for_tmux_quotes("a\"b"), "a\\042b");
    assert_eq!(escape_for_tmux_quotes("a\\b"), "a\\134b");
    // $, #, ; and { would trigger expansion or command separation
    assert_eq!(escape_for_tmux_quotes("$HOME"), "\\044HOME");
    assert_eq!(escape_for_tmux_quotes("#{pane_id}"), "\\043\\173pane_id\\175");
    assert_eq!(escape_for_tmux_quotes("a;b"), "a\\073b");
}

#[test]
fn escape_encodes_newlines_and_control_characters() {
    assert_eq!(escape_for_tmux_quotes("a\nb"), "a\\012b");
    assert_eq!(escape_for_tmux_quotes("a\tb"), "a\\011b");
    assert_eq!(escape_for_tmux_quotes("a\rb"), "a\\015b");
}

#[test]
fn escape_encodes_utf8_bytes_individually() {
    // "あ" = 0xE3 0x81 0x82; Tmux reassembles the raw bytes
    assert_eq!(escape_for_tmux_quotes("あ"), "\\343\\201\\202");
}

#[test]
fn escapes_are_resolved_to_the_same_bytes() {
    let text = "tab\there \"quoted\" \\ $x あ\n";
    let escaped = escape_for_tmux_quotes(text);
    assert_eq!(parse_escaped_output(escaped.as_bytes(), false, 0), text.as_bytes());
}

fn cmd(outgoing: Outgoing) -> (TmuxCommand, String) {
    (outgoing.event, outgoing.cmd)
}

#[test]
fn plain_commands_are_exact() {
    let api = TmuxAPI::new();
    let layout = cmd(api.get_initial_layout());
    assert_eq!(layout.0, TmuxCommand::InitialLayout);
    assert_eq!(
        layout.1,
        "list-windows -F \"#{window_id} #{window_layout} #{window_visible_layout} #{window_flags} #{window_name}\""
    );
    assert_eq!(
        cmd(api.kill_window(7)),
        (TmuxCommand::TabClose, "kill-window -t @7".to_string())
    );
    let window = cmd(api.get_window_layout(12));
    assert_eq!(window.0, TmuxCommand::TabNew);
    assert_eq!(
        window.1,
        "list-windows -f \"#{==:#{window_id},@12}\" -F \"#{window_id} #{window_layout} #{window_visible_layout} #{window_flags} #{window_name}\""
    );
    assert_eq!(
        cmd(api.get_initial_output(3)),
        (
            TmuxCommand::InitialOutput(3),
            "capture-pane -J -p -t %3 -eC -S - -E -".to_string()
        )
    );
    assert_eq!(
        cmd(api.fetch_buffer("buffer0")),
        (TmuxCommand::FetchBuffer, "show-buffer -b \"buffer0\"".to_string())
    );
    assert_eq!(
        cmd(api.send_function_key(1, "F5")),
        (TmuxCommand::Keypress, "send-keys -t %1 -- \"F5\"".to_string())
    );
    assert_eq!(
        cmd(api.select_tab(4)),
        (TmuxCommand::TabSelect(4), "select-window -t @4".to_string())
    );
    assert_eq!(
        cmd(api.select_terminal(5)),
        (TmuxCommand::PaneSelect(5), "select-pane -t %5".to_string())
    );
    assert_eq!(
        cmd(api.resize_pane(6, Direction::Left, 10)),
        (TmuxCommand::PaneResize(6), "resize-pane -L -t %6 10".to_string())
    );
    assert_eq!(api.select_tab(4).line(), b"select-window -t @4\n");
}

#[test]
fn input_is_sent_as_hex_bytes() {
    let api = TmuxAPI::new();
    assert!(api.send_input_bytes(2, "").is_none());
    assert_eq!(
        cmd(api.send_input_bytes(2, "a\x1bあ").unwrap()),
        (
            TmuxCommand::Keypress,
            "send-keys -t %2 -H 0x61 0x1B 0xE3 0x81 0x82".to_string()
        )
    );
}

#[test]
fn names_are_quoted_and_cut_at_the_first_line() {
    let api = TmuxAPI::new();
    assert_eq!(
        cmd(api.rename_tab(1, "my \"tab\"\nsecond")),
        (
            TmuxCommand::TabRename(1),
            "rename-window -t @1 -- \"my \\\"tab\\\"\"".to_string()
        )
    );
}

#[test]
fn size_is_sent_only_when_it_changes() {
    let mut api = TmuxAPI::new();
    assert!(api.change_size(0, 0).is_none());
    assert_eq!(
        cmd(api.change_size(80, -1).unwrap()),
        (
            TmuxCommand::ChangeSize(80, -1),
            "refresh-client -C 80,-1".to_string()
        )
    );
    assert!(api.change_size(80, -1).is_none());
    assert!(!api.update_resize_future(true));
    assert!(api.update_resize_future(false));
}

#[test]
fn each_stored_selection_has_one_echo() {
    let mut api = TmuxAPI::new();
    assert!(!api.consume_buffer_echo());
    assert_eq!(
        cmd(api.set_buffer("a b").unwrap()),
        (TmuxCommand::SetBuffer, "set-buffer -- \"a b\"".to_string())
    );
    api.set_buffer("c");
    assert!(api.consume_buffer_echo());
    assert!(api.consume_buffer_echo());
    assert!(!api.consume_buffer_echo());
    // A huge selection is not synced, and has no echo
    assert!(api.set_buffer(&"x".repeat(MAX_SYNC_BYTES + 1)).is_none());
    assert!(!api.consume_buffer_echo());
    assert!(api.set_buffer(&"x".repeat(MAX_SYNC_BYTES)).is_some());
}

#[test]
fn keybindings_become_commands() {
    let api = TmuxAPI::new();
    let send = |action| api.send_keybinding(action, 9).map(cmd);
    assert_eq!(
        send(KeyboardAction::PaneSplit(true)),
        Some((TmuxCommand::PaneSplit(true), "split-window -v -t %9".to_string()))
    );
    assert_eq!(
        send(KeyboardAction::PaneSplit(false)),
        Some((TmuxCommand::PaneSplit(false), "split-window -h -t %9".to_string()))
    );
    assert_eq!(
        send(KeyboardAction::PaneClose),
        Some((TmuxCommand::PaneClose(9), "kill-pane -t %9".to_string()))
    );
    assert_eq!(
        send(KeyboardAction::TabNew).unwrap().1,
        "new-window -P -F \"#{window_id} #{window_layout} #{window_visible_layout} ${window_flags} #{window_name}\""
    );
    assert_eq!(
        send(KeyboardAction::TabClose),
        Some((TmuxCommand::TabClose, "kill-window".to_string()))
    );
    assert_eq!(
        send(KeyboardAction::MoveFocus(Direction::Up)),
        Some((
            TmuxCommand::PaneMoveFocus(Direction::Up),
            "select-pane -U".to_string()
        ))
    );
    assert_eq!(
        send(KeyboardAction::ToggleZoom),
        Some((TmuxCommand::PaneZoom(9), "resize-pane -Z -t %9".to_string()))
    );
    assert_eq!(
        send(KeyboardAction::OpenEditorCwd),
        Some((
            TmuxCommand::PaneCurrentPath(9),
            "list-panes -t %9 -F \"path: #{pane_id} #{pane_current_path}\"".to_string()
        ))
    );
    assert_eq!(
        send(KeyboardAction::ClearScrollback),
        Some((TmuxCommand::ClearScrollback(9), "clear-history -t %9".to_string()))
    );
    assert_eq!(send(KeyboardAction::TabRename), None);
    assert_eq!(send(KeyboardAction::ToggleFullscreen), None);
    assert_eq!(send(KeyboardAction::FontScaleReset), None);
}

#[test]
fn keys_are_routed() {
    assert_eq!(handle_keyboard_event(KeyboardAction::CopySelected), TmuxKeyRoute::Copy);
    assert_eq!(handle_keyboard_event(KeyboardAction::PasteClipboard), TmuxKeyRoute::Paste);
    assert_eq!(handle_keyboard_event(KeyboardAction::TabRename), TmuxKeyRoute::RenameTab);
    assert_eq!(
        handle_keyboard_event(KeyboardAction::FontScaleDecrease),
        TmuxKeyRoute::FontScale(-1)
    );
    assert_eq!(
        handle_keyboard_event(KeyboardAction::TabNew),
        TmuxKeyRoute::Forward(KeyboardAction::TabNew)
    );
    assert_eq!(
        handle_keyboard(KeyboardAction::PaneSplit(true)),
        NormalKeyRoute::SplitPane(Orientation::Vertical)
    );
    assert_eq!(
        handle_keyboard(KeyboardAction::PaneSplit(false)),
        NormalKeyRoute::SplitPane(Orientation::Horizontal)
    );
    assert_eq!(handle_keyboard(KeyboardAction::FontScaleIncrease), NormalKeyRoute::FontScale(1));
}
