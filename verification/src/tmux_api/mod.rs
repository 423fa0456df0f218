//! The Tmux control-mode protocol: the commands sent, the events received
//! and the state that ties replies to commands.

pub mod notices;
pub mod parse_layout;
pub mod reader;
pub mod receive;
pub mod ring;
pub mod send;

use vstd::prelude::*;

use crate::keyboard::Direction;
pub use send::TmuxAPI;

verus! {

/// A command sent to Tmux. It names what the reply means.
#[derive(Clone, Copy, Debug, PartialEq, Eq, Structural)]
pub enum TmuxCommand {
    Init,
    InitialLayout,
    Keypress,
    TabNew,
    TabClose,
    TabSelect(u32),
    TabRename(u32),
    PaneSplit(bool),
    PaneClose(u32),
    PaneSelect(u32),
    PaneCurrentPath(u32),
    PaneMoveFocus(Direction),
    PaneZoom(u32),
    PaneResize(u32),
    ChangeSize(i32, i32),
    InitialOutput(u32),
    FetchBuffer,
    SetBuffer,
    ClearScrollback(u32),
}

/// One property that Tmux reports of a window.
#[derive(Clone, Copy, Debug, PartialEq, Eq, Structural)]
pub enum LayoutFlags {
    HasFocus,
    IsZoomed,
}

/// The properties that Tmux reports of a window.
#[derive(Clone, Copy, Debug, PartialEq, Eq, Structural)]
pub struct LayoutFlagSet {
    pub has_focus: bool,
    pub is_zoomed: bool,
}

impl LayoutFlagSet {
    pub open spec fn has(self, flag: LayoutFlags) -> bool {
        match flag {
            LayoutFlags::HasFocus => self.has_focus,
            LayoutFlags::IsZoomed => self.is_zoomed,
        }
    }

    /// Whether the window has the property `flag`.
    pub fn contains(&self, flag: LayoutFlags) -> (r: bool)
        ensures
            r == self.has(flag),
    {
        match flag {
            LayoutFlags::HasFocus => self.has_focus,
            LayoutFlags::IsZoomed => self.is_zoomed,
        }
    }
}

/// Bounds of a pane, in cells.
#[derive(Clone, Copy, Debug, PartialEq, Eq, Structural)]
pub struct Rectangle {
    pub x: i32,
    pub y: i32,
    pub width: i32,
    pub height: i32,
}

/// How the children of a container are placed.
#[derive(Clone, Copy, Debug, PartialEq, Eq, Structural)]
pub enum Orientation {
    /// Side by side
    Horizontal,
    /// On top of each other
    Vertical,
}

/// One step through the pane hierarchy of a window: a container is followed
/// by its children and closed by `Return`.
#[derive(Clone, Copy, Debug, PartialEq, Eq, Structural)]
pub enum TmuxPane {
    Terminal(u32, Rectangle),
    Container(Orientation, Rectangle),
    Return,
}

/// The layout of one Tmux window.
#[derive(Debug)]
pub struct LayoutSync {
    pub tab_id: u32,
    pub layout: Vec<TmuxPane>,
    pub visible_layout: Vec<TmuxPane>,
    pub flags: LayoutFlagSet,
    pub name: Option<String>,
}

/// Mathematical value of a `LayoutSync`.
pub struct LayoutView {
    pub tab_id: u32,
    pub layout: Seq<TmuxPane>,
    pub visible_layout: Seq<TmuxPane>,
    pub flags: LayoutFlagSet,
    pub name: Option<Seq<char>>,
}

impl View for LayoutSync {
    type V = LayoutView;

    open spec fn view(&self) -> LayoutView {
        LayoutView {
            tab_id: self.tab_id,
            layout: self.layout@,
            visible_layout: self.visible_layout@,
            flags: self.flags,
            name: match self.name {
                Some(name) => Some(name@),
                None => None,
            },
        }
    }
}

/// What Tmux told the client.
#[derive(Debug)]
pub enum TmuxEvent {
    ScrollOutput(u32, usize),
    InitialLayout(LayoutSync),
    InitialLayoutFinished,
    InitialOutputFinished(u32),
    LayoutChanged(LayoutSync),
    Output(u32, Vec<u8>, bool),
    SizeChanged,
    PaneFocusChanged(u32, u32),
    TabFocusChanged(u32),
    TabNew(LayoutSync),
    WindowAdded(u32),
    TabClosed(u32),
    TabRenamed(u32, String),
    SessionChanged(u32, String),
    PasteBufferChanged(String),
    ClipboardText(String),
    Exit,
    ScrollbackCleared(u32),
    /// Tmux has handled a key press
    KeypressAck,
}

/// Mathematical value of a `TmuxEvent`.
pub enum EventView {
    ScrollOutput(u32, usize),
    InitialLayout(LayoutView),
    InitialLayoutFinished,
    InitialOutputFinished(u32),
    LayoutChanged(LayoutView),
    Output(u32, Seq<u8>, bool),
    SizeChanged,
    PaneFocusChanged(u32, u32),
    TabFocusChanged(u32),
    TabNew(LayoutView),
    WindowAdded(u32),
    TabClosed(u32),
    TabRenamed(u32, Seq<char>),
    SessionChanged(u32, Seq<char>),
    PasteBufferChanged(Seq<char>),
    ClipboardText(Seq<char>),
    Exit,
    ScrollbackCleared(u32),
    KeypressAck,
}

impl View for TmuxEvent {
    type V = EventView;

    open spec fn view(&self) -> EventView {
        match *self {
            TmuxEvent::ScrollOutput(id, n) => EventView::ScrollOutput(id, n),
            TmuxEvent::InitialLayout(layout) => EventView::InitialLayout(layout@),
            TmuxEvent::InitialLayoutFinished => EventView::InitialLayoutFinished,
            TmuxEvent::InitialOutputFinished(id) => EventView::InitialOutputFinished(id),
            TmuxEvent::LayoutChanged(layout) => EventView::LayoutChanged(layout@),
            TmuxEvent::Output(id, bytes, initial) => EventView::Output(id, bytes@, initial),
            TmuxEvent::SizeChanged => EventView::SizeChanged,
            TmuxEvent::PaneFocusChanged(tab, pane) => EventView::PaneFocusChanged(tab, pane),
            TmuxEvent::TabFocusChanged(tab) => EventView::TabFocusChanged(tab),
            TmuxEvent::TabNew(layout) => EventView::TabNew(layout@),
            TmuxEvent::WindowAdded(tab) => EventView::WindowAdded(tab),
            TmuxEvent::TabClosed(tab) => EventView::TabClosed(tab),
            TmuxEvent::TabRenamed(tab, name) => EventView::TabRenamed(tab, name@),
            TmuxEvent::SessionChanged(id, name) => EventView::SessionChanged(id, name@),
            TmuxEvent::PasteBufferChanged(name) => EventView::PasteBufferChanged(name@),
            TmuxEvent::ClipboardText(text) => EventView::ClipboardText(text@),
            TmuxEvent::Exit => EventView::Exit,
            TmuxEvent::ScrollbackCleared(id) => EventView::ScrollbackCleared(id),
            TmuxEvent::KeypressAck => EventView::KeypressAck,
        }
    }
}

/// What the parser asks of the program around it.
#[derive(Debug)]
pub enum ParserEffect {
    /// Hand the event to the window
    Send(TmuxEvent),
    /// Open an editor on the path
    OpenEditor(String),
    /// Report that the command failed, with what Tmux wrote about it
    CommandFailed(Option<TmuxCommand>, Vec<Vec<u8>>),
}

/// Mathematical value of a `ParserEffect`.
pub enum EffectView {
    Send(EventView),
    OpenEditor(Seq<char>),
    CommandFailed(Option<TmuxCommand>, Seq<Seq<u8>>),
}

/// The lines of a block as byte sequences.
pub open spec fn lines_view(lines: Seq<Vec<u8>>) -> Seq<Seq<u8>> {
    Seq::new(lines.len(), |i: int| lines[i]@)
}

impl View for ParserEffect {
    type V = EffectView;

    open spec fn view(&self) -> EffectView {
        match *self {
            ParserEffect::Send(event) => EffectView::Send(event@),
            ParserEffect::OpenEditor(path) => EffectView::OpenEditor(path@),
            ParserEffect::CommandFailed(command, lines) => EffectView::CommandFailed(
                command,
                lines_view(lines@),
            ),
        }
    }
}

/// The values of a list of effects.
pub open spec fn effects_view(effects: Seq<ParserEffect>) -> Seq<EffectView> {
    Seq::new(effects.len(), |i: int| effects[i]@)
}

/// What the parser knows between two lines.
#[derive(Debug)]
pub struct TmuxParserState {
    /// The command whose reply is being read
    pub current_command: Option<TmuxCommand>,
    /// Output lines received since %begin. They are held back until the
    /// closing %end/%error arrives, because only that line tells whether
    /// they are the command's result or an error message
    pub block_lines: Vec<Vec<u8>>,
    /// False until the first %begin is seen; shell output arriving before it
    /// (prompt echo over a pty transport, ...) is discarded
    pub preamble_done: bool,
    /// Set by %begin: the next command of the queue is the one being answered
    pub awaiting_command: bool,
}

/// Mathematical value of a `TmuxParserState`.
pub struct ParserView {
    pub command: Option<TmuxCommand>,
    pub lines: Seq<Seq<u8>>,
    pub preamble_done: bool,
    pub awaiting: bool,
}

impl View for TmuxParserState {
    type V = ParserView;

    open spec fn view(&self) -> ParserView {
        ParserView {
            command: self.current_command,
            lines: lines_view(self.block_lines@),
            preamble_done: self.preamble_done,
            awaiting: self.awaiting_command,
        }
    }
}

impl TmuxParserState {
    pub fn new() -> (state: TmuxParserState)
        ensures
            state@ == (ParserView {
                command: None,
                lines: Seq::empty(),
                preamble_done: false,
                awaiting: false,
            }),
    {
        let state = TmuxParserState {
            current_command: None,
            block_lines: Vec::new(),
            preamble_done: false,
            awaiting_command: false,
        };
        assert(state@.lines =~= Seq::empty());
        state
    }

    /// Names the command whose reply has begun.
    pub fn begin_command(&mut self, command: TmuxCommand)
        ensures
            final(self)@ == (ParserView {
                command: Some(command),
                awaiting: false,
                ..old(self)@
            }),
    {
        self.current_command = Some(command);
        self.awaiting_command = false;
    }
}

/// Each property of a window is told by its own flag.
pub proof fn law_flags_are_told_apart(flags: LayoutFlagSet)
    ensures
        flags.has(LayoutFlags::HasFocus) == flags.has_focus,
        flags.has(LayoutFlags::IsZoomed) == flags.is_zoomed,
{
}

} // verus!
