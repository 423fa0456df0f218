//! Windows that show a Tmux session.

use ivyterm::config::terminal::PredictiveEchoMode;
use ivyterm::keyboard::KeyboardAction;
use ivyterm::tmux_api::{
    LayoutFlagSet, LayoutSync, Orientation, Rectangle, TmuxCommand, TmuxEvent, TmuxPane,
};
use ivyterm::tmux_widgets::window::{IvyTmuxWindow, TmuxInitState, WindowAction};

fn layout(tab_id: u32, has_focus: bool) -> LayoutSync {
    let pane = TmuxPane::Terminal(tab_id, Rectangle { x: 0, y: 0, width: 80, height: 24 });
    LayoutSync {
        tab_id,
        layout: vec![pane],
        visible_layout: vec![pane],
        flags: LayoutFlagSet { has_focus, is_zoomed: false },
        name: None,
    }
}

fn attached() -> IvyTmuxWindow {
    let mut window = IvyTmuxWindow::new();
    let actions = window.tmux_event_callback(TmuxEvent::SessionChanged(1, "main".into()), 0);
    assert!(matches!(&actions[..], [WindowAction::Transmit(out)]
        if out.event == TmuxCommand::InitialLayout));
    window
}

fn running() -> IvyTmuxWindow {
    let mut window = attached();
    window.tmux_event_callback(TmuxEvent::InitialLayout(layout(1, true)), 0);
    window.tmux_event_callback(TmuxEvent::InitialLayout(layout(2, false)), 0);
    window.register_terminal(2, 20, (8, 16));
    window.register_terminal(1, 10, (9, 18));
    window.tmux_event_callback(TmuxEvent::InitialLayoutFinished, 0);
    window.tmux_event_callback(TmuxEvent::SizeChanged, 0);
    window
}

#[test]
fn session_is_set_up_in_order() {
    let mut window = attached();
    assert_eq!(TmuxInitState::default(), TmuxInitState::SyncingLayout);
    let actions = window.tmux_event_callback(TmuxEvent::InitialLayout(layout(1, true)), 0);
    assert!(matches!(&actions[..], [WindowAction::NewTab(1), WindowAction::SyncLayout(l)]
        if l.tab_id == 1));
    window.register_terminal(1, 20, (8, 16));
    window.register_terminal(1, 10, (8, 16));
    assert_eq!(window.get_char_size(), (8, 16));
    // The size is not confirmed for this layout yet
    assert!(window.tmux_event_callback(TmuxEvent::SizeChanged, 0).is_empty());
    let actions = window.tmux_event_callback(TmuxEvent::InitialLayoutFinished, 0);
    assert!(matches!(&actions[..], [WindowAction::SelectTab(1)]));
    assert!(!window.initial_layout_finished());
    // Once it is, the output of every pane is asked for
    let actions = window.tmux_event_callback(TmuxEvent::SizeChanged, 0);
    assert!(window.initial_layout_finished());
    assert!(matches!(&actions[..], [WindowAction::Transmit(a), WindowAction::Transmit(b)]
        if a.event == TmuxCommand::InitialOutput(10) && b.event == TmuxCommand::InitialOutput(20)));
    // and only once
    assert!(window.tmux_event_callback(TmuxEvent::SizeChanged, 0).is_empty());
}

#[test]
fn session_must_not_change() {
    let mut window = attached();
    let same = window.tmux_event_callback(TmuxEvent::SessionChanged(1, "main".into()), 0);
    assert!(same.is_empty());
    let other = window.tmux_event_callback(TmuxEvent::SessionChanged(1, "other".into()), 0);
    assert!(matches!(&other[..], [WindowAction::CloseWindow]));
    let other = window.tmux_event_callback(TmuxEvent::SessionChanged(2, "other".into()), 0);
    assert!(matches!(&other[..], [WindowAction::CloseWindow]));
}

#[test]
fn panes_and_tabs_are_looked_up() {
    let mut window = running();
    let known = window.tmux_event_callback(TmuxEvent::Output(10, b"x".to_vec(), false), 0);
    assert!(matches!(&known[..], [WindowAction::FeedOutput(10, out, false)] if out == b"x"));
    assert!(window.tmux_event_callback(TmuxEvent::Output(11, b"x".to_vec(), false), 0).is_empty());
    assert!(window.tmux_event_callback(TmuxEvent::InitialOutputFinished(11), 0).is_empty());
    assert!(matches!(
        window.tmux_event_callback(TmuxEvent::InitialOutputFinished(20), 0)[..],
        [WindowAction::InitialOutputFinished(20)]
    ));
    assert!(matches!(
        window.tmux_event_callback(TmuxEvent::ScrollOutput(20, 3), 0)[..],
        [WindowAction::ScrollView(20, 3)]
    ));
    assert!(matches!(
        window.tmux_event_callback(TmuxEvent::ScrollbackCleared(10), 0)[..],
        [WindowAction::ClearScrollback(10)]
    ));
    assert!(matches!(
        window.tmux_event_callback(TmuxEvent::PaneFocusChanged(2, 20), 0)[..],
        [WindowAction::SelectTerminal(2, 20)]
    ));
    assert!(window.tmux_event_callback(TmuxEvent::PaneFocusChanged(3, 20), 0).is_empty());
    assert!(matches!(
        &window.tmux_event_callback(TmuxEvent::TabRenamed(1, "n".into()), 0)[..],
        [WindowAction::RenameTab(1, name)] if name == "n"
    ));
    assert_eq!(window.get_terminal_by_id(10), Some(10));
    assert_eq!(window.get_terminal_by_id(11), None);
    window.unregister_terminal(10);
    assert_eq!(window.get_terminal_by_id(10), None);
}

#[test]
fn tab_focus_follows_tmux() {
    let mut window = running();
    assert!(window.tmux_event_callback(TmuxEvent::TabFocusChanged(1), 0).is_empty());
    assert!(matches!(
        window.tmux_event_callback(TmuxEvent::TabFocusChanged(2), 0)[..],
        [WindowAction::SelectTab(2)]
    ));
    assert!(window.tmux_event_callback(TmuxEvent::TabFocusChanged(9), 0).is_empty());
    assert_eq!(window.gtk_tab_focus_changed(1).unwrap().cmd, "select-window -t @1");
    assert_eq!(window.gtk_terminal_focus_changed(10).unwrap().cmd, "select-pane -t %10");
    // Tabs that appear during the setup select themselves
    assert!(attached().gtk_tab_focus_changed(1).is_none());
}

#[test]
fn windows_of_other_clients_get_a_tab() {
    let mut window = running();
    assert!(window.tmux_event_callback(TmuxEvent::WindowAdded(1), 0).is_empty());
    let actions = window.tmux_event_callback(TmuxEvent::WindowAdded(5), 0);
    assert!(matches!(&actions[..], [WindowAction::Transmit(out)]
        if out.event == TmuxCommand::TabNew));
    let actions = window.tmux_event_callback(TmuxEvent::TabNew(layout(5, true)), 0);
    assert!(matches!(&actions[..], [WindowAction::NewTab(5), WindowAction::SyncLayout(_)]));
    let actions = window.tmux_event_callback(TmuxEvent::LayoutChanged(layout(5, true)), 0);
    assert!(matches!(&actions[..], [WindowAction::SyncLayout(_)]));
}

#[test]
fn only_tabs_closed_by_the_user_are_killed() {
    let mut window = running();
    let actions = window.tmux_event_callback(TmuxEvent::TabClosed(1), 0);
    assert!(matches!(actions[..], [WindowAction::CloseTab(1)]));
    assert!(window.tab_page_closed(1).is_none());
    assert!(!window.has_top_level(1));
    assert_eq!(window.get_terminal_by_id(10), None);
    assert_eq!(window.get_terminal_by_id(20), Some(20));
    assert!(window.tmux_event_callback(TmuxEvent::TabClosed(1), 0).is_empty());

    assert_eq!(window.tab_page_closed(2).unwrap().cmd, "kill-window -t @2");
    assert_eq!(window.get_terminal_by_id(20), None);
    assert!(window.tab_page_closed(2).is_none());
}

#[test]
fn own_selection_is_not_fetched_back() {
    let mut window = running();
    assert!(window.tmux_sync_selection("text").is_some());
    assert!(window
        .tmux_event_callback(TmuxEvent::PasteBufferChanged("buffer1".into()), 0)
        .is_empty());
    let actions = window.tmux_event_callback(TmuxEvent::PasteBufferChanged("buffer2".into()), 0);
    assert!(matches!(&actions[..], [WindowAction::Transmit(out)]
        if out.cmd == "show-buffer -b \"buffer2\""));
    let actions = window.tmux_event_callback(TmuxEvent::ClipboardText("clip".into()), 0);
    assert!(matches!(&actions[..], [WindowAction::SetClipboard(text)] if text == "clip"));
}

#[test]
fn round_trips_are_paired_in_order() {
    let second = 1_000_000_000;
    let mut window = running();
    assert_eq!(window.tmux_send_input(10, "a", 0).unwrap().cmd, "send-keys -t %10 -H 0x61");
    window.tmux_send_input(10, "b", second);
    let actions = window.tmux_event_callback(TmuxEvent::KeypressAck, second + 5);
    assert!(matches!(actions[..], [WindowAction::RttSample(n)] if n == second + 5));
    let actions = window.tmux_event_callback(TmuxEvent::KeypressAck, second + 7);
    assert!(matches!(actions[..], [WindowAction::RttSample(7)]));
    assert!(window.tmux_event_callback(TmuxEvent::KeypressAck, second + 8).is_empty());
    // A reply that took too long is no sample
    window.tmux_send_input(10, "c", 0);
    assert!(window.tmux_event_callback(TmuxEvent::KeypressAck, 2 * second + 1).is_empty());
    // A key press whose reply never came is dropped at the next one
    window.tmux_send_input(10, "d", 0);
    window.tmux_send_input(10, "e", 3 * second);
    let actions = window.tmux_event_callback(TmuxEvent::KeypressAck, 3 * second + 1);
    assert!(matches!(actions[..], [WindowAction::RttSample(1)]));
}

#[test]
fn predictions_depend_on_mode_and_transport() {
    let window = running();
    assert!(!window.predictive_echo_active(PredictiveEchoMode::Off, true));
    assert!(window.predictive_echo_active(PredictiveEchoMode::Always, false));
    assert!(window.predictive_echo_active(PredictiveEchoMode::Auto, true));
    assert!(!window.predictive_echo_active(PredictiveEchoMode::Auto, false));
}

#[test]
fn one_resize_runs_at_a_time() {
    let mut window = running();
    assert!(window.resync_tmux_size());
    assert!(!window.resync_tmux_size());
    assert_eq!(window.tmux_sync_size(100, 30).unwrap().cmd, "refresh-client -C 100,30");
    assert!(window.resync_tmux_size());
    assert!(window.tmux_sync_size(100, 30).is_none());
}

#[test]
fn dragged_separators_resize_panes() {
    let window = running();
    let drag = |orientation, amount| {
        window.separator_drag_sync(orientation, amount, 10).unwrap().cmd
    };
    assert_eq!(drag(Orientation::Horizontal, -2), "resize-pane -U -t %10 2");
    assert_eq!(drag(Orientation::Horizontal, 2), "resize-pane -D -t %10 2");
    assert_eq!(drag(Orientation::Vertical, -3), "resize-pane -L -t %10 3");
    assert_eq!(drag(Orientation::Vertical, 3), "resize-pane -R -t %10 3");
    assert_eq!(window.rename_tmux_tab(1, "x").unwrap().cmd, "rename-window -t @1 -- \"x\"");
    assert_eq!(
        window.tmux_handle_keybinding(KeyboardAction::PaneClose, 10).unwrap().cmd,
        "kill-pane -t %10"
    );
    assert_eq!(window.tmux_kill_window(3).unwrap().cmd, "kill-window -t @3");
}

#[test]
fn finished_windows_do_nothing() {
    let mut window = running();
    window.finish_tmux();
    assert!(window.tmux_event_callback(TmuxEvent::Exit, 0).is_empty());
    assert!(window.tmux_event_callback(TmuxEvent::Output(10, vec![1], false), 0).is_empty());
    assert!(window.tmux_send_input(10, "a", 0).is_none());
    assert!(window.tmux_sync_selection("a").is_none());
    assert!(window.tmux_kill_window(1).is_none());
    assert!(!window.resync_tmux_size());
    let mut window = running();
    assert!(matches!(
        window.tmux_event_callback(TmuxEvent::Exit, 0)[..],
        [WindowAction::CloseWindow]
    ));
}

#[test]
fn selections_can_be_synced() {
    let mut window = IvyTmuxWindow::new();
    assert!(window.can_sync_selection());
    assert!(window.tmux_sync_selection("text").is_some());
    assert!(window.can_sync_selection());
    window.finish_tmux();
    assert!(window.can_sync_selection());
}
