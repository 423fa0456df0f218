//! Keyboard actions.

use vstd::prelude::*;

use crate::tmux_api::Orientation;

verus! {

#[derive(Clone, Copy, Debug, PartialEq, Eq, Structural)]
pub enum Direction {
    Left,
    Up,
    Right,
    Down,
}

#[derive(Clone, Copy, Debug, PartialEq, Eq, Structural)]
pub enum KeyboardAction {
    TabNew,
    TabClose,
    TabRename,
    PaneSplit(bool),
    PaneClose,
    MoveFocus(Direction),
    ToggleZoom,
    ToggleFullscreen,
    CopySelected,
    PasteClipboard,
    OpenEditorCwd,
    ClearScrollback,
    FontScaleIncrease,
    FontScaleDecrease,
    FontScaleReset,
}

/// Who handles a key binding of a Tmux terminal.
#[derive(Clone, Copy, Debug, PartialEq, Eq, Structural)]
pub enum TmuxKeyRoute {
    /// The terminal copies the selection
    Copy,
    /// The terminal pastes the clipboard
    Paste,
    /// The tab asks for its new name
    RenameTab,
    /// The window goes into or out of fullscreen
    ToggleFullscreen,
    /// The window zooms its font: in, out, or back to normal where 0
    FontScale(i32),
    /// Tmux
    Forward(KeyboardAction),
}

/// Who handles `action` in a Tmux terminal.
pub open spec fn tmux_route(action: KeyboardAction) -> TmuxKeyRoute {
    match action {
        KeyboardAction::CopySelected => TmuxKeyRoute::Copy,
        KeyboardAction::PasteClipboard => TmuxKeyRoute::Paste,
        KeyboardAction::TabRename => TmuxKeyRoute::RenameTab,
        KeyboardAction::ToggleFullscreen => TmuxKeyRoute::ToggleFullscreen,
        KeyboardAction::FontScaleIncrease => TmuxKeyRoute::FontScale(1),
        KeyboardAction::FontScaleDecrease => TmuxKeyRoute::FontScale((-1) as i32),
        KeyboardAction::FontScaleReset => TmuxKeyRoute::FontScale(0),
        _ => TmuxKeyRoute::Forward(action),
    }
}

/// Who handles a key binding of a Tmux terminal.
pub fn handle_keyboard_event(action: KeyboardAction) -> (route: TmuxKeyRoute)
    ensures
        route == tmux_route(action),
{
    match action {
        KeyboardAction::CopySelected => TmuxKeyRoute::Copy,
        KeyboardAction::PasteClipboard => TmuxKeyRoute::Paste,
        KeyboardAction::TabRename => TmuxKeyRoute::RenameTab,
        KeyboardAction::ToggleFullscreen => TmuxKeyRoute::ToggleFullscreen,
        KeyboardAction::FontScaleIncrease => TmuxKeyRoute::FontScale(1),
        KeyboardAction::FontScaleDecrease => TmuxKeyRoute::FontScale(-1),
        KeyboardAction::FontScaleReset => TmuxKeyRoute::FontScale(0),
        _ => TmuxKeyRoute::Forward(action),
    }
}

/// Copy and paste are never forwarded to Tmux, which could not do them, and
/// what is forwarded arrives unchanged.
pub proof fn law_forwarded_keys(action: KeyboardAction)
    ensures
        tmux_route(action) matches TmuxKeyRoute::Forward(forwarded) ==> forwarded == action
            && forwarded != KeyboardAction::CopySelected && forwarded
            != KeyboardAction::PasteClipboard,
{
}

/// What a key binding does in a normal terminal.
#[derive(Clone, Copy, Debug, PartialEq, Eq, Structural)]
pub enum NormalKeyRoute {
    SplitPane(Orientation),
    ClosePane,
    NewTab,
    CloseTab,
    RenameTab,
    MoveFocus(Direction),
    ToggleZoom,
    Copy,
    Paste,
    OpenEditorCwd,
    ClearScrollback,
    ToggleFullscreen,
    FontScale(i32),
}

/// What `action` does in a normal terminal.
pub open spec fn normal_route(action: KeyboardAction) -> NormalKeyRoute {
    match action {
        KeyboardAction::PaneSplit(vertical) => NormalKeyRoute::SplitPane(
            if vertical {
                Orientation::Vertical
            } else {
                Orientation::Horizontal
            },
        ),
        KeyboardAction::PaneClose => NormalKeyRoute::ClosePane,
        KeyboardAction::TabNew => NormalKeyRoute::NewTab,
        KeyboardAction::TabClose => NormalKeyRoute::CloseTab,
        KeyboardAction::TabRename => NormalKeyRoute::RenameTab,
        KeyboardAction::MoveFocus(direction) => NormalKeyRoute::MoveFocus(direction),
        KeyboardAction::ToggleZoom => NormalKeyRoute::ToggleZoom,
        KeyboardAction::CopySelected => NormalKeyRoute::Copy,
        KeyboardAction::PasteClipboard => NormalKeyRoute::Paste,
        KeyboardAction::OpenEditorCwd => NormalKeyRoute::OpenEditorCwd,
        KeyboardAction::ClearScrollback => NormalKeyRoute::ClearScrollback,
        KeyboardAction::ToggleFullscreen => NormalKeyRoute::ToggleFullscreen,
        KeyboardAction::FontScaleIncrease => NormalKeyRoute::FontScale(1),
        KeyboardAction::FontScaleDecrease => NormalKeyRoute::FontScale((-1) as i32),
        KeyboardAction::FontScaleReset => NormalKeyRoute::FontScale(0),
    }
}

/// What a key binding does in a normal terminal.
pub fn handle_keyboard(action: KeyboardAction) -> (route: NormalKeyRoute)
    ensures
        route == normal_route(action),
{
    match action {
        KeyboardAction::PaneSplit(vertical) => {
            let orientation = if vertical {
                Orientation::Vertical
            } else {
                Orientation::Horizontal
            };
            NormalKeyRoute::SplitPane(orientation)
        },
        KeyboardAction::PaneClose => NormalKeyRoute::ClosePane,
        KeyboardAction::TabNew => NormalKeyRoute::NewTab,
        KeyboardAction::TabClose => NormalKeyRoute::CloseTab,
        KeyboardAction::TabRename => NormalKeyRoute::RenameTab,
        KeyboardAction::MoveFocus(direction) => NormalKeyRoute::MoveFocus(direction),
        KeyboardAction::ToggleZoom => NormalKeyRoute::ToggleZoom,
        KeyboardAction::CopySelected => NormalKeyRoute::Copy,
        KeyboardAction::PasteClipboard => NormalKeyRoute::Paste,
        KeyboardAction::OpenEditorCwd => NormalKeyRoute::OpenEditorCwd,
        KeyboardAction::ClearScrollback => NormalKeyRoute::ClearScrollback,
        KeyboardAction::ToggleFullscreen => NormalKeyRoute::ToggleFullscreen,
        KeyboardAction::FontScaleIncrease => NormalKeyRoute::FontScale(1),
        KeyboardAction::FontScaleDecrease => NormalKeyRoute::FontScale(-1),
        KeyboardAction::FontScaleReset => NormalKeyRoute::FontScale(0),
    }
}

/// The keys that zoom the font do so by one step in, one step out, or back to
/// normal, in both kinds of terminals.
pub proof fn law_font_keys_agree()
    ensures
        tmux_route(KeyboardAction::FontScaleIncrease) == TmuxKeyRoute::FontScale(1),
        tmux_route(KeyboardAction::FontScaleDecrease) == TmuxKeyRoute::FontScale((-1) as i32),
        tmux_route(KeyboardAction::FontScaleReset) == TmuxKeyRoute::FontScale(0),
        normal_route(KeyboardAction::FontScaleIncrease) == NormalKeyRoute::FontScale(1),
        normal_route(KeyboardAction::FontScaleDecrease) == NormalKeyRoute::FontScale((-1) as i32),
        normal_route(KeyboardAction::FontScaleReset) == NormalKeyRoute::FontScale(0),
{
}

/// What the widgets do themselves is what the key asks for, in both kinds of
/// terminals.
pub proof fn law_keys_of_the_widgets_agree(action: KeyboardAction)
    ensures
        tmux_route(action) == TmuxKeyRoute::Copy <==> action == KeyboardAction::CopySelected,
        tmux_route(action) == TmuxKeyRoute::Paste <==> action == KeyboardAction::PasteClipboard,
        tmux_route(action) == TmuxKeyRoute::RenameTab <==> action == KeyboardAction::TabRename,
        tmux_route(action) == TmuxKeyRoute::ToggleFullscreen <==> action
            == KeyboardAction::ToggleFullscreen,
        tmux_route(action) == TmuxKeyRoute::Copy <==> normal_route(action) == NormalKeyRoute::Copy,
        tmux_route(action) == TmuxKeyRoute::Paste <==> normal_route(action)
            == NormalKeyRoute::Paste,
        tmux_route(action) == TmuxKeyRoute::RenameTab <==> normal_route(action)
            == NormalKeyRoute::RenameTab,
        tmux_route(action) == TmuxKeyRoute::ToggleFullscreen <==> normal_route(action)
            == NormalKeyRoute::ToggleFullscreen,
{
}

/// In a normal terminal, panes are split below or beside, closed, focused,
/// zoomed and cleared, and tabs opened and closed, by the key that asks for it
/// and by no other.
pub proof fn law_normal_keys_do_what_they_say(action: KeyboardAction, direction: Direction)
    ensures
        normal_route(KeyboardAction::PaneSplit(true)) == NormalKeyRoute::SplitPane(
            Orientation::Vertical,
        ),
        normal_route(KeyboardAction::PaneSplit(false)) == NormalKeyRoute::SplitPane(
            Orientation::Horizontal,
        ),
        normal_route(KeyboardAction::MoveFocus(direction)) == NormalKeyRoute::MoveFocus(direction),
        normal_route(action) is SplitPane <==> action is PaneSplit,
        normal_route(action) is MoveFocus <==> action is MoveFocus,
        normal_route(action) == NormalKeyRoute::ClosePane <==> action == KeyboardAction::PaneClose,
        normal_route(action) == NormalKeyRoute::NewTab <==> action == KeyboardAction::TabNew,
        normal_route(action) == NormalKeyRoute::CloseTab <==> action == KeyboardAction::TabClose,
        normal_route(action) == NormalKeyRoute::ToggleZoom <==> action
            == KeyboardAction::ToggleZoom,
        normal_route(action) == NormalKeyRoute::OpenEditorCwd <==> action
            == KeyboardAction::OpenEditorCwd,
        normal_route(action) == NormalKeyRoute::ClearScrollback <==> action
            == KeyboardAction::ClearScrollback,
{
}

} // verus!
