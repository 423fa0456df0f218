//! What a Tmux window does with the events of its session and with what the
//! user does.
//!
//! Tmux session initialization:
//! 1. %session-changed (Tmux confirmed attached) asks for the initial layout
//! 2. The initial layout is used to construct the tabs
//! 3. The size of the first tab is sent to Tmux
//! 4. Once Tmux has confirmed it, the initial output of every pane is asked for

use vstd::prelude::*;

use crate::config::terminal::PredictiveEchoMode;
use crate::helpers::{flagged, has_id, in_order, is_sorted, SortedVec, WithId};
use crate::keyboard::{Direction, KeyboardAction};
use crate::text::{decimal, same_text};
use crate::tmux_api::send::{
    buffer_set, echo_consumed, fetch_command, initial_layout_command, initial_output_command,
    input_command, keybinding_command, kill_window_command, outgoing_view, rename_command, resized,
    resize_command, select_tab_command, select_terminal_command, window_layout_command, ApiView,
    Outgoing, OutgoingView, TmuxAPI,
};
use crate::tmux_api::{
    EventView, LayoutFlags, LayoutSync, LayoutView, Orientation, TmuxCommand, TmuxEvent,
};

verus! {

/// A key press reply older than this many nanoseconds is not a usable sample
/// of the round trip time
pub const RTT_SAMPLE_TIMEOUT_NANOS: u64 = 2_000_000_000;

/// How far the session is set up.
#[derive(Clone, Copy, Debug, PartialEq, Eq, Structural)]
pub enum TmuxInitState {
    SyncingLayout,
    SyncingSize,
    Done,
}

impl Default for TmuxInitState {
    fn default() -> (r: TmuxInitState)
        ensures
            r == TmuxInitState::SyncingLayout,
    {
        TmuxInitState::SyncingLayout
    }
}

// ---------------------------------------------------------------------------
// Actions
// ---------------------------------------------------------------------------

/// What the window asks of the widgets. Actions are performed in order; where
/// a command cannot be sent, the window closes and the rest is dropped.
#[derive(Debug)]
pub enum WindowAction {
    /// Send a command to Tmux
    Transmit(Outgoing),
    /// Output of a pane, and whether it is the initial one
    FeedOutput(u32, Vec<u8>, bool),
    /// The initial output of a pane is complete
    InitialOutputFinished(u32),
    /// Scroll a pane past so many empty lines
    ScrollView(u32, usize),
    /// Clear the scrollback of a pane
    ClearScrollback(u32),
    /// Show a new tab
    NewTab(u32),
    /// Bring the panes of a tab in line with the layout
    SyncLayout(LayoutSync),
    /// Select a tab
    SelectTab(u32),
    /// Close a tab
    CloseTab(u32),
    /// Show the new name of a tab
    RenameTab(u32, String),
    /// Focus a pane of a tab
    SelectTerminal(u32, u32),
    /// Put text on the system clipboard
    SetClipboard(String),
    /// A key press took so many nanoseconds to be acknowledged
    RttSample(u64),
    /// Close the window
    CloseWindow,
}

/// Mathematical value of a `WindowAction`.
pub enum ActionView {
    Transmit(OutgoingView),
    FeedOutput(u32, Seq<u8>, bool),
    InitialOutputFinished(u32),
    ScrollView(u32, usize),
    ClearScrollback(u32),
    NewTab(u32),
    SyncLayout(LayoutView),
    SelectTab(u32),
    CloseTab(u32),
    RenameTab(u32, Seq<char>),
    SelectTerminal(u32, u32),
    SetClipboard(Seq<char>),
    RttSample(u64),
    CloseWindow,
}

impl View for WindowAction {
    type V = ActionView;

    open spec fn view(&self) -> ActionView {
        match *self {
            WindowAction::Transmit(outgoing) => ActionView::Transmit(outgoing@),
            WindowAction::FeedOutput(id, bytes, initial) => ActionView::FeedOutput(
                id,
                bytes@,
                initial,
            ),
            WindowAction::InitialOutputFinished(id) => ActionView::InitialOutputFinished(id),
            WindowAction::ScrollView(id, n) => ActionView::ScrollView(id, n),
            WindowAction::ClearScrollback(id) => ActionView::ClearScrollback(id),
            WindowAction::NewTab(id) => ActionView::NewTab(id),
            WindowAction::SyncLayout(layout) => ActionView::SyncLayout(layout@),
            WindowAction::SelectTab(id) => ActionView::SelectTab(id),
            WindowAction::CloseTab(id) => ActionView::CloseTab(id),
            WindowAction::RenameTab(id, name) => ActionView::RenameTab(id, name@),
            WindowAction::SelectTerminal(tab, id) => ActionView::SelectTerminal(tab, id),
            WindowAction::SetClipboard(text) => ActionView::SetClipboard(text@),
            WindowAction::RttSample(nanos) => ActionView::RttSample(nanos),
            WindowAction::CloseWindow => ActionView::CloseWindow,
        }
    }
}

/// The values of a list of actions.
pub open spec fn actions_view(actions: Seq<WindowAction>) -> Seq<ActionView> {
    Seq::new(actions.len(), |i: int| actions[i]@)
}

// ---------------------------------------------------------------------------
// State
// ---------------------------------------------------------------------------

/// State of one tab: a Tmux window.
#[derive(Debug)]
pub struct TmuxTopLevel {
    pub tab_id: u32,
    /// The panes that the tab owns
    pub terminals: Vec<u32>,
    /// The Tmux window is already gone (closed by Tmux), no need to tell
    /// Tmux to kill it when the Tab closes
    pub closed_by_tmux: bool,
}

/// Mathematical value of a `TmuxTopLevel`.
pub struct TabView {
    pub tab_id: u32,
    pub terminals: Seq<u32>,
    pub closed_by_tmux: bool,
}

impl View for TmuxTopLevel {
    type V = TabView;

    open spec fn view(&self) -> TabView {
        TabView {
            tab_id: self.tab_id,
            terminals: self.terminals@,
            closed_by_tmux: self.closed_by_tmux,
        }
    }
}

/// The values of a list of tabs.
pub open spec fn tabs_view(tabs: Seq<TmuxTopLevel>) -> Seq<TabView> {
    Seq::new(tabs.len(), |i: int| tabs[i]@)
}

/// The numbers of a list of entries.
pub open spec fn ids<T>(entries: Seq<WithId<T>>) -> Seq<u32> {
    Seq::new(entries.len(), |i: int| entries[i].id)
}

/// State of a window that shows a Tmux session.
#[derive(Debug)]
pub struct IvyTmuxWindow {
    /// The connection, until it is finished
    tmux: Option<TmuxAPI>,
    tabs: Vec<TmuxTopLevel>,
    /// The panes of all tabs, found by number
    terminals: SortedVec<u32>,
    session: Option<(u32, String)>,
    focused_tab: u32,
    init_layout_finished: TmuxInitState,
    char_size: (i32, i32),
    /// When the key presses were sent that are not acknowledged yet
    keypress_sent: Vec<u64>,
}

/// Mathematical value of an `IvyTmuxWindow`.
#[verifier::ext_equal]
pub struct WindowView {
    pub tmux: Option<ApiView>,
    pub tabs: Seq<TabView>,
    pub terminals: Seq<u32>,
    pub session: Option<(u32, Seq<char>)>,
    pub focused_tab: u32,
    pub init: TmuxInitState,
    pub char_size: (i32, i32),
    pub sent: Seq<u64>,
}

impl View for IvyTmuxWindow {
    type V = WindowView;

    closed spec fn view(&self) -> WindowView {
        WindowView {
            tmux: match self.tmux {
                Some(tmux) => Some(tmux@),
                None => None,
            },
            tabs: tabs_view(self.tabs@),
            terminals: ids(self.terminals@),
            session: match self.session {
                Some((id, name)) => Some((id, name@)),
                None => None,
            },
            focused_tab: self.focused_tab,
            init: self.init_layout_finished,
            char_size: self.char_size,
            sent: self.keypress_sent@,
        }
    }
}

/// Position of the first tab with the number `id`, or the number of tabs.
pub open spec fn tab_index(tabs: Seq<TabView>, id: u32) -> int
    decreases tabs.len(),
{
    if tabs.len() == 0 || tabs[0].tab_id == id {
        0
    } else {
        1 + tab_index(tabs.skip(1), id)
    }
}

/// Whether there is a tab with the number `id`.
pub open spec fn has_tab(tabs: Seq<TabView>, id: u32) -> bool {
    exists|i: int| 0 <= i < tabs.len() && (#[trigger] tabs[i]).tab_id == id
}

/// The tabs with the first one of number `id` marked as closed by Tmux.
pub open spec fn tab_marked(tabs: Seq<TabView>, id: u32) -> Seq<TabView> {
    let i = tab_index(tabs, id);
    tabs.update(i, TabView { closed_by_tmux: true, ..tabs[i] })
}

/// The tabs with other numbers than `id`.
pub open spec fn tabs_without(tabs: Seq<TabView>, id: u32) -> Seq<TabView>
    decreases tabs.len(),
{
    if tabs.len() == 0 {
        Seq::empty()
    } else {
        let front = tabs_without(tabs.drop_last(), id);
        if tabs.last().tab_id == id {
            front
        } else {
            front.push(tabs.last())
        }
    }
}

/// The panes that are not among `closed`.
pub open spec fn panes_without(panes: Seq<u32>, closed: Seq<u32>) -> Seq<u32>
    decreases panes.len(),
{
    if panes.len() == 0 {
        Seq::empty()
    } else {
        let front = panes_without(panes.drop_last(), closed);
        if closed.contains(panes.last()) {
            front
        } else {
            front.push(panes.last())
        }
    }
}

/// The time that has passed since `sent`.
pub open spec fn elapsed(sent: u64, now: u64) -> int {
    if now >= sent {
        now - sent
    } else {
        0
    }
}

/// The key presses without the stale ones at the front, whose reply never
/// came.
pub open spec fn fresh(sent: Seq<u64>, now: u64) -> Seq<u64>
    decreases sent.len(),
{
    if sent.len() > 0 && elapsed(sent[0], now) > RTT_SAMPLE_TIMEOUT_NANOS {
        fresh(sent.skip(1), now)
    } else {
        sent
    }
}

// ---------------------------------------------------------------------------
// Events
// ---------------------------------------------------------------------------

/// A window and what it asks of the widgets.
#[verifier::ext_equal]
pub struct WindowStep {
    pub window: WindowView,
    pub actions: Seq<ActionView>,
}

pub open spec fn quiet(window: WindowView) -> WindowStep {
    WindowStep { window, actions: Seq::empty() }
}

pub open spec fn acting(window: WindowView, action: ActionView) -> WindowStep {
    WindowStep { window, actions: seq![action] }
}

/// Brings a tab in line with a layout; the tab is created where there is none.
pub open spec fn layout_synced(window: WindowView, layout: LayoutView) -> WindowStep {
    let known = has_tab(window.tabs, layout.tab_id);
    WindowStep {
        window: WindowView {
            tabs: if known {
                window.tabs
            } else {
                window.tabs.push(
                    TabView {
                        tab_id: layout.tab_id,
                        terminals: Seq::empty(),
                        closed_by_tmux: false,
                    },
                )
            },
            focused_tab: if layout.flags.has(LayoutFlags::HasFocus) {
                layout.tab_id
            } else {
                window.focused_tab
            },
            ..window
        },
        actions: if known {
            seq![ActionView::SyncLayout(layout)]
        } else {
            seq![ActionView::NewTab(layout.tab_id), ActionView::SyncLayout(layout)]
        },
    }
}

/// Asks for the initial output of every pane.
pub open spec fn output_requests(panes: Seq<u32>) -> Seq<ActionView> {
    Seq::new(panes.len(), |i: int| ActionView::Transmit(initial_output_command(panes[i])))
}

/// What an event does to a window, at the time `now`.
pub open spec fn event_step(window: WindowView, event: EventView, now: u64) -> WindowStep {
    if window.tmux is None {
        // The connection is finished
        quiet(window)
    } else {
        match event {
            EventView::Output(pane_id, output, initial) => if window.terminals.contains(pane_id) {
                acting(window, ActionView::FeedOutput(pane_id, output, initial))
            } else {
                quiet(window)
            },
            EventView::KeypressAck => if window.sent.len() == 0 {
                quiet(window)
            } else {
                let after = WindowView { sent: window.sent.skip(1), ..window };
                let rtt = elapsed(window.sent[0], now);
                if rtt > RTT_SAMPLE_TIMEOUT_NANOS {
                    quiet(after)
                } else {
                    acting(after, ActionView::RttSample(rtt as u64))
                }
            },
            EventView::PaneFocusChanged(tab_id, term_id) => if has_tab(window.tabs, tab_id) {
                acting(window, ActionView::SelectTerminal(tab_id, term_id))
            } else {
                quiet(window)
            },
            EventView::TabFocusChanged(tab_id) => {
                let after = WindowView { focused_tab: tab_id, ..window };
                if window.focused_tab != tab_id && has_tab(window.tabs, tab_id) {
                    acting(after, ActionView::SelectTab(tab_id))
                } else {
                    quiet(after)
                }
            },
            EventView::TabNew(layout) => layout_synced(window, layout),
            EventView::InitialLayout(layout) => layout_synced(window, layout),
            EventView::LayoutChanged(layout) => layout_synced(window, layout),
            EventView::WindowAdded(tab_id) => if has_tab(window.tabs, tab_id) {
                quiet(window)
            } else {
                acting(window, ActionView::Transmit(window_layout_command(tab_id)))
            },
            EventView::TabClosed(tab_id) => if has_tab(window.tabs, tab_id) {
                acting(
                    WindowView { tabs: tab_marked(window.tabs, tab_id), ..window },
                    ActionView::CloseTab(tab_id),
                )
            } else {
                quiet(window)
            },
            EventView::TabRenamed(tab_id, name) => if has_tab(window.tabs, tab_id) {
                acting(window, ActionView::RenameTab(tab_id, name))
            } else {
                quiet(window)
            },
            EventView::InitialLayoutFinished => {
                let after = WindowView { init: TmuxInitState::SyncingSize, ..window };
                if has_tab(window.tabs, window.focused_tab) {
                    acting(after, ActionView::SelectTab(window.focused_tab))
                } else {
                    quiet(after)
                }
            },
            EventView::InitialOutputFinished(pane_id) => if window.terminals.contains(pane_id) {
                acting(window, ActionView::InitialOutputFinished(pane_id))
            } else {
                quiet(window)
            },
            EventView::SizeChanged => if window.init == TmuxInitState::SyncingSize {
                WindowStep {
                    window: WindowView { init: TmuxInitState::Done, ..window },
                    actions: output_requests(window.terminals),
                }
            } else {
                quiet(window)
            },
            EventView::Exit => acting(window, ActionView::CloseWindow),
            EventView::ScrollOutput(pane_id, empty_lines) => if window.terminals.contains(
                pane_id,
            ) {
                acting(window, ActionView::ScrollView(pane_id, empty_lines))
            } else {
                quiet(window)
            },
            EventView::SessionChanged(id, name) => {
                let after = WindowView { session: Some((id, name)), ..window };
                match window.session {
                    // The session must not change underneath us
                    Some(before) => if before != (id, name) {
                        acting(after, ActionView::CloseWindow)
                    } else {
                        quiet(after)
                    },
                    // Tmux is now attached and owns the transport; it is
                    // safe to start sending commands
                    None => acting(after, ActionView::Transmit(initial_layout_command())),
                }
            },
            EventView::PasteBufferChanged(name) => {
                let (api, echo) = echo_consumed(window.tmux->Some_0);
                let after = WindowView { tmux: Some(api), ..window };
                if echo {
                    quiet(after)
                } else {
                    acting(after, ActionView::Transmit(fetch_command(name)))
                }
            },
            EventView::ClipboardText(text) => acting(window, ActionView::SetClipboard(text)),
            EventView::ScrollbackCleared(term_id) => if window.terminals.contains(term_id) {
                acting(window, ActionView::ClearScrollback(term_id))
            } else {
                quiet(window)
            },
        }
    }
}

fn one(action: WindowAction) -> (actions: Vec<WindowAction>)
    ensures
        actions_view(actions@) == seq![action@],
{
    let mut actions: Vec<WindowAction> = Vec::new();
    actions.push(action);
    assert(actions_view(actions@) =~= seq![action@]);
    actions
}

fn none() -> (actions: Vec<WindowAction>)
    ensures
        actions_view(actions@) == Seq::<ActionView>::empty(),
{
    let actions: Vec<WindowAction> = Vec::new();
    assert(actions_view(actions@) =~= Seq::empty());
    actions
}

proof fn lemma_tab_index(tabs: Seq<TabView>, id: u32, n: int)
    requires
        0 <= n <= tabs.len(),
        forall|i: int| 0 <= i < n ==> (#[trigger] tabs[i]).tab_id != id,
        n == tabs.len() || tabs[n].tab_id == id,
    ensures
        tab_index(tabs, id) == n,
        has_tab(tabs, id) == (n < tabs.len()),
    decreases n,
{
    if n > 0 {
        assert(tabs[0].tab_id != id);
        assert forall|i: int| 0 <= i < n - 1 implies (#[trigger] tabs.skip(1)[i]).tab_id != id by {
            assert(tabs[i + 1].tab_id != id);
        }
        lemma_tab_index(tabs.skip(1), id, n - 1);
    }
    if n < tabs.len() {
        assert(tabs[n].tab_id == id);
    }
}

/// A number is found exactly where it is among the numbers.
pub proof fn lemma_ids<T>(entries: Seq<WithId<T>>, id: u32)
    ensures
        has_id(entries, id) == ids(entries).contains(id),
{
    if has_id(entries, id) {
        let i = choose|i: int| 0 <= i < entries.len() && (#[trigger] entries[i]).id == id;
        assert(ids(entries)[i] == id);
    }
    if ids(entries).contains(id) {
        let i = choose|i: int| 0 <= i < ids(entries).len() && ids(entries)[i] == id;
        assert(entries[i].id == id);
    }
}

/// Whether `id` is among the panes.
pub(crate) fn holds(panes: &Vec<u32>, id: u32) -> (r: bool)
    ensures
        r == panes@.contains(id),
{
    let mut i: usize = 0;
    while i < panes.len()
        invariant
            i <= panes@.len(),
            forall|j: int| 0 <= j < i ==> #[trigger] panes@[j] != id,
        decreases panes@.len() - i,
    {
        if panes[i] == id {
            assert(panes@[i as int] == id);
            return true;
        }
        i += 1;
    }
    false
}

/// The direction in which a dragged separator moves: along the rows where it
/// is horizontal, along the columns otherwise.
pub open spec fn drag_direction(orientation: Orientation, amount: int) -> Direction {
    match orientation {
        Orientation::Horizontal => if amount < 0 {
            Direction::Up
        } else {
            Direction::Down
        },
        Orientation::Vertical => if amount < 0 {
            Direction::Left
        } else {
            Direction::Right
        },
    }
}

impl IvyTmuxWindow {
    /// Whether the panes are in the order of their numbers.
    pub closed spec fn wf(&self) -> bool {
        is_sorted(self.terminals@)
    }

    /// A window whose session is about to be attached.
    pub fn new() -> (window: IvyTmuxWindow)
        ensures
            window.wf(),
            window@ == (WindowView {
                tmux: Some(ApiView { window_size: (0, 0), resize_future: false, echoes: 0 }),
                tabs: Seq::empty(),
                terminals: Seq::empty(),
                session: None,
                focused_tab: 0,
                init: TmuxInitState::SyncingLayout,
                char_size: (0, 0),
                sent: Seq::empty(),
            }),
    {
        let window = IvyTmuxWindow {
            tmux: Some(TmuxAPI::new()),
            tabs: Vec::new(),
            terminals: SortedVec::default(),
            session: None,
            focused_tab: 0,
            init_layout_finished: TmuxInitState::SyncingLayout,
            char_size: (0, 0),
            keypress_sent: Vec::new(),
        };
        proof {
            assert(window@.tabs =~= Seq::empty());
            assert(window@.terminals =~= Seq::empty());
        }
        window
    }

    /// The connection is finished: nothing is sent anymore and every event is
    /// ignored.
    pub fn finish_tmux(&mut self)
        requires
            old(self).wf(),
        ensures
            final(self).wf(),
            final(self)@ == (WindowView { tmux: None, ..old(self)@ }),
    {
        self.tmux = None;
    }

    pub fn get_char_size(&self) -> (r: (i32, i32))
        ensures
            r == self@.char_size,
    {
        self.char_size
    }

    pub fn initial_layout_finished(&self) -> (r: bool)
        ensures
            r == (self@.init == TmuxInitState::Done),
    {
        self.init_layout_finished == TmuxInitState::Done
    }

    /// Position of the tab with the number `id`.
    fn get_top_level(&self, id: u32) -> (r: Option<usize>)
        ensures
            r is Some <==> has_tab(self@.tabs, id),
            r matches Some(i) ==> i < self@.tabs.len() && i == tab_index(self@.tabs, id)
                && self@.tabs[i as int].tab_id == id,
    {
        let mut i: usize = 0;
        while i < self.tabs.len()
            invariant
                i <= self@.tabs.len(),
                self@.tabs.len() == self.tabs@.len(),
                forall|j: int| 0 <= j < i ==> (#[trigger] self@.tabs[j]).tab_id != id,
            decreases self.tabs@.len() - i,
        {
            if self.tabs[i].tab_id == id {
                proof {
                    lemma_tab_index(self@.tabs, id, i as int);
                }
                return Some(i);
            }
            i += 1;
        }
        proof {
            lemma_tab_index(self@.tabs, id, i as int);
        }
        None
    }

    /// Whether there is a tab with the number `id`.
    pub fn has_top_level(&self, id: u32) -> (r: bool)
        ensures
            r == has_tab(self@.tabs, id),
    {
        self.get_top_level(id).is_some()
    }

    /// The pane with the number `id`, if it is one of this window.
    pub fn get_terminal_by_id(&self, id: u32) -> (r: Option<u32>)
        requires
            self.wf(),
        ensures
            r == (if self@.terminals.contains(id) {
                Some(id)
            } else {
                None
            }),
    {
        proof {
            lemma_ids(self.terminals@, id);
        }
        match self.terminals.get(id) {
            Some(_) => Some(id),
            None => None,
        }
    }

    /// Adds a tab without panes.
    pub fn new_tab(&mut self, id: u32)
        requires
            old(self).wf(),
        ensures
            final(self).wf(),
            final(self)@ == (WindowView {
                tabs: old(self)@.tabs.push(
                    TabView { tab_id: id, terminals: Seq::empty(), closed_by_tmux: false },
                ),
                ..old(self)@
            }),
    {
        self.tabs.push(TmuxTopLevel { tab_id: id, terminals: Vec::new(), closed_by_tmux: false });
        assert(self@.tabs =~= old(self)@.tabs.push(
            TabView { tab_id: id, terminals: Seq::empty(), closed_by_tmux: false },
        ));
    }

    /// Marks the tab `id` as closed by Tmux.
    fn mark_closed(&mut self, index: usize)
        requires
            old(self).wf(),
            index < old(self)@.tabs.len(),
        ensures
            final(self).wf(),
            final(self)@ == (WindowView {
                tabs: old(self)@.tabs.update(
                    index as int,
                    TabView { closed_by_tmux: true, ..old(self)@.tabs[index as int] },
                ),
                ..old(self)@
            }),
    {
        self.tabs[index].closed_by_tmux = true;
        assert(self@.tabs =~= old(self)@.tabs.update(
            index as int,
            TabView { closed_by_tmux: true, ..old(self)@.tabs[index as int] },
        ));
    }

    /// Brings a tab in line with a layout.
    fn sync_tmux_layout(&mut self, layout: LayoutSync) -> (actions: Vec<WindowAction>)
        requires
            old(self).wf(),
        ensures
            final(self).wf(),
            final(self)@ == layout_synced(old(self)@, layout@).window,
            actions_view(actions@) == layout_synced(old(self)@, layout@).actions,
    {
        let tab_id: u32 = layout.tab_id;
        let focus = layout.flags.contains(LayoutFlags::HasFocus);
        let ghost view = layout@;
        let mut actions: Vec<WindowAction> = Vec::new();
        if !self.has_top_level(tab_id) {
            self.new_tab(tab_id);
            actions.push(WindowAction::NewTab(tab_id));
        }
        actions.push(WindowAction::SyncLayout(layout));
        if focus {
            self.focused_tab = tab_id;
        }
        assert(actions_view(actions@) =~= layout_synced(old(self)@, view).actions);
        actions
    }

    /// Asks for the initial output of every pane.
    fn request_initial_output(&self) -> (actions: Vec<WindowAction>)
        requires
            self@.tmux is Some,
        ensures
            actions_view(actions@) == output_requests(self@.terminals),
    {
        let mut actions: Vec<WindowAction> = Vec::new();
        let ghost panes = self@.terminals;
        let mut i: usize = 0;
        while i < self.terminals.len()
            invariant
                panes == ids(self.terminals@),
                self@.tmux is Some,
                i <= panes.len(),
                actions@.len() == i,
                forall|j: int|
                    0 <= j < i ==> (#[trigger] actions@[j])@ == ActionView::Transmit(
                        initial_output_command(panes[j]),
                    ),
            decreases panes.len() - i,
        {
            let id: u32 = self.terminals.entry(i).id;
            if let Some(tmux) = &self.tmux {
                actions.push(WindowAction::Transmit(tmux.get_initial_output(id)));
            }
            i += 1;
        }
        assert(actions_view(actions@) =~= output_requests(panes));
        actions
    }

    /// An acknowledgement of the oldest key press, at the time `now`. One
    /// without a matching key press (e.g. a function key sent through another
    /// code path) is ignored.
    fn record_keypress_ack(&mut self, now: u64) -> (actions: Vec<WindowAction>)
        requires
            old(self).wf(),
            old(self)@.tmux is Some,
        ensures
            final(self).wf(),
            final(self)@ == event_step(old(self)@, EventView::KeypressAck, now).window,
            actions_view(actions@) == event_step(
                old(self)@,
                EventView::KeypressAck,
                now,
            ).actions,
    {
        if self.keypress_sent.len() == 0 {
            return none();
        }
        let sent: u64 = self.keypress_sent.remove(0);
        assert(self@.sent =~= old(self)@.sent.skip(1));
        let rtt: u64 = if now >= sent {
            now - sent
        } else {
            0
        };
        if rtt > RTT_SAMPLE_TIMEOUT_NANOS {
            none()
        } else {
            one(WindowAction::RttSample(rtt))
        }
    }

    /// The session that Tmux reports.
    fn session_changed(&mut self, id: u32, name: String) -> (actions: Vec<WindowAction>)
        requires
            old(self).wf(),
            old(self)@.tmux is Some,
        ensures
            final(self).wf(),
            ({
                let step = event_step(old(self)@, EventView::SessionChanged(id, name@), 0);
                final(self)@ == step.window && actions_view(actions@) == step.actions
            }),
    {
        let actions = match &self.session {
            Some((old_id, old_name)) => if *old_id != id || !same_text(
                old_name.as_str(),
                name.as_str(),
            ) {
                one(WindowAction::CloseWindow)
            } else {
                none()
            },
            None => match &self.tmux {
                Some(tmux) => one(WindowAction::Transmit(tmux.get_initial_layout())),
                None => none(),
            },
        };
        self.session = Some((id, name));
        actions
    }

    /// What an event of the session does, at the time `now` in nanoseconds.
    pub fn tmux_event_callback(&mut self, event: TmuxEvent, now: u64) -> (actions: Vec<
        WindowAction,
    >)
        requires
            old(self).wf(),
        ensures
            final(self).wf(),
            final(self)@ == event_step(old(self)@, event@, now).window,
            actions_view(actions@) == event_step(old(self)@, event@, now).actions,
            actions@.len() == event_step(old(self)@, event@, now).actions.len(),
    {
        if self.tmux.is_none() {
            return none();
        }
        match event {
            TmuxEvent::Output(pane_id, output, initial) => {
                if self.get_terminal_by_id(pane_id).is_some() {
                    one(WindowAction::FeedOutput(pane_id, output, initial))
                } else {
                    none()
                }
            },
            TmuxEvent::KeypressAck => self.record_keypress_ack(now),
            TmuxEvent::PaneFocusChanged(tab_id, term_id) => {
                if self.has_top_level(tab_id) {
                    one(WindowAction::SelectTerminal(tab_id, term_id))
                } else {
                    none()
                }
            },
            TmuxEvent::TabFocusChanged(tab_id) => {
                let before: u32 = self.focused_tab;
                self.focused_tab = tab_id;
                if before != tab_id && self.has_top_level(tab_id) {
                    one(WindowAction::SelectTab(tab_id))
                } else {
                    none()
                }
            },
            TmuxEvent::TabNew(layout) => self.sync_tmux_layout(layout),
            TmuxEvent::InitialLayout(layout) => self.sync_tmux_layout(layout),
            TmuxEvent::LayoutChanged(layout) => self.sync_tmux_layout(layout),
            TmuxEvent::WindowAdded(tab_id) => {
                // Window created by another client; ask for its layout so the
                // Tab is created right away
                if self.has_top_level(tab_id) {
                    return none();
                }
                match &self.tmux {
                    Some(tmux) => one(WindowAction::Transmit(tmux.get_window_layout(tab_id))),
                    None => none(),
                }
            },
            TmuxEvent::TabClosed(tab_id) => match self.get_top_level(tab_id) {
                Some(index) => {
                    // The Tmux window is already closed, no need to kill it
                    self.mark_closed(index);
                    one(WindowAction::CloseTab(tab_id))
                },
                None => none(),
            },
            TmuxEvent::TabRenamed(tab_id, name) => {
                if self.has_top_level(tab_id) {
                    one(WindowAction::RenameTab(tab_id, name))
                } else {
                    none()
                }
            },
            TmuxEvent::InitialLayoutFinished => {
                // The initial layout is there: the columns and rows can now
                // be computed to sync the Tmux client size
                self.init_layout_finished = TmuxInitState::SyncingSize;
                let tab_id: u32 = self.focused_tab;
                if self.has_top_level(tab_id) {
                    one(WindowAction::SelectTab(tab_id))
                } else {
                    none()
                }
            },
            TmuxEvent::InitialOutputFinished(pane_id) => {
                if self.get_terminal_by_id(pane_id).is_some() {
                    one(WindowAction::InitialOutputFinished(pane_id))
                } else {
                    none()
                }
            },
            TmuxEvent::SizeChanged => {
                if self.init_layout_finished == TmuxInitState::SyncingSize {
                    self.init_layout_finished = TmuxInitState::Done;
                    // Initial output has not been captured yet, now is the time
                    self.request_initial_output()
                } else {
                    none()
                }
            },
            TmuxEvent::Exit => one(WindowAction::CloseWindow),
            TmuxEvent::ScrollOutput(pane_id, empty_lines) => {
                if self.get_terminal_by_id(pane_id).is_some() {
                    one(WindowAction::ScrollView(pane_id, empty_lines))
                } else {
                    none()
                }
            },
            TmuxEvent::SessionChanged(id, name) => self.session_changed(id, name),
            TmuxEvent::PasteBufferChanged(name) => self.paste_buffer_changed(name),
            TmuxEvent::ClipboardText(text) => one(WindowAction::SetClipboard(text)),
            TmuxEvent::ScrollbackCleared(term_id) => {
                if self.get_terminal_by_id(term_id).is_some() {
                    one(WindowAction::ClearScrollback(term_id))
                } else {
                    none()
                }
            },
        }
    }

    /// A paste buffer has changed. Buffers that were just set from a local
    /// selection are skipped: fetching those back would clobber the system
    /// clipboard with every mouse selection.
    fn paste_buffer_changed(&mut self, name: String) -> (actions: Vec<WindowAction>)
        requires
            old(self).wf(),
            old(self)@.tmux is Some,
        ensures
            final(self).wf(),
            ({
                let step = event_step(old(self)@, EventView::PasteBufferChanged(name@), 0);
                final(self)@ == step.window && actions_view(actions@) == step.actions
            }),
    {
        match self.tmux.take() {
            Some(mut tmux) => {
                let echo = tmux.consume_buffer_echo();
                let actions = if echo {
                    none()
                } else {
                    one(WindowAction::Transmit(tmux.fetch_buffer(name.as_str())))
                };
                self.tmux = Some(tmux);
                actions
            },
            None => none(),
        }
    }
}

// ---------------------------------------------------------------------------
// The user
// ---------------------------------------------------------------------------

impl IvyTmuxWindow {
    /// Kill a Tmux window (e.g. because the user closed its Tab)
    pub fn tmux_kill_window(&self, tab_id: u32) -> (r: Option<Outgoing>)
        ensures
            outgoing_view(r) == (if self@.tmux is Some {
                Some(kill_window_command(tab_id))
            } else {
                None
            }),
    {
        match &self.tmux {
            Some(tmux) => Some(tmux.kill_window(tab_id)),
            None => None,
        }
    }

    /// Send user input (as produced by VTE's `commit` signal) to Tmux, at the
    /// time `now`. The time is kept: the acknowledgement of the key press
    /// completes a sample of the round trip time. Entries whose reply never
    /// came would skew the pairing forever; stale ones are dropped.
    pub fn tmux_send_input(&mut self, pane_id: u32, text: &str, now: u64) -> (r: Option<Outgoing>)
        requires
            old(self).wf(),
        ensures
            final(self).wf(),
            old(self)@.tmux is None ==> r is None && final(self)@ == old(self)@,
            old(self)@.tmux is Some ==> {
                &&& outgoing_view(r) == input_command(pane_id, text@)
                &&& final(self)@ == (WindowView {
                    sent: fresh(old(self)@.sent, now).push(now),
                    ..old(self)@
                })
            },
            (final(self)@, outgoing_view(r)) == input_sent(old(self)@, pane_id, text@, now),
    {
        if self.tmux.is_none() {
            return None;
        }
        while self.keypress_sent.len() > 0
            invariant
                self.wf(),
                self@.tmux is Some,
                fresh(self@.sent, now) == fresh(old(self)@.sent, now),
                self@ == (WindowView { sent: self@.sent, ..old(self)@ }),
            ensures
                self@.sent == fresh(old(self)@.sent, now),
            decreases self.keypress_sent@.len(),
        {
            let first: u64 = self.keypress_sent[0];
            let age: u64 = if now >= first {
                now - first
            } else {
                0
            };
            if age <= RTT_SAMPLE_TIMEOUT_NANOS {
                break;
            }
            let ghost before = self@.sent;
            self.keypress_sent.remove(0);
            assert(self@.sent =~= before.skip(1));
        }
        self.keypress_sent.push(now);
        match &self.tmux {
            Some(tmux) => tmux.send_input_bytes(pane_id, text),
            None => None,
        }
    }

    /// Whether predictions should currently be displayed, given the
    /// configured mode and whether the measured transport is slow.
    pub fn predictive_echo_active(&self, mode: PredictiveEchoMode, slow_transport: bool) -> (r:
        bool)
        ensures
            r == (mode == PredictiveEchoMode::Always || (mode == PredictiveEchoMode::Auto
                && slow_transport)),
    {
        match mode {
            PredictiveEchoMode::Off => false,
            PredictiveEchoMode::Always => true,
            PredictiveEchoMode::Auto => slow_transport,
        }
    }

    /// Whether one more stored text can be counted.
    pub fn can_sync_selection(&self) -> (r: bool)
        ensures
            r == (self@.tmux matches Some(api) ==> api.echoes < usize::MAX),
    {
        match &self.tmux {
            Some(tmux) => tmux.pending_echoes() < usize::MAX,
            None => true,
        }
    }

    /// Sync locally selected text into a Tmux paste buffer, so tmux-side
    /// paste (prefix-], other clients) sees what the user selected
    pub fn tmux_sync_selection(&mut self, text: &str) -> (r: Option<Outgoing>)
        requires
            old(self).wf(),
            old(self)@.tmux matches Some(api) ==> api.echoes < usize::MAX,
        ensures
            final(self).wf(),
            match old(self)@.tmux {
                None => r is None && final(self)@ == old(self)@,
                Some(api) => {
                    let (after, sent) = buffer_set(api, text@);
                    &&& outgoing_view(r) == sent
                    &&& final(self)@ == (WindowView { tmux: Some(after), ..old(self)@ })
                },
            },
    {
        match self.tmux.take() {
            Some(mut tmux) => {
                let r = tmux.set_buffer(text);
                self.tmux = Some(tmux);
                r
            },
            None => None,
        }
    }

    /// The size of the selected tab is known: the running resize is over, and
    /// Tmux is told the size unless it knows it.
    pub fn tmux_sync_size(&mut self, cols: i32, rows: i32) -> (r: Option<Outgoing>)
        requires
            old(self).wf(),
        ensures
            final(self).wf(),
            match old(self)@.tmux {
                None => r is None && final(self)@ == old(self)@,
                Some(api) => {
                    let (after, sent) = resized(
                        ApiView { resize_future: false, ..api },
                        cols,
                        rows,
                    );
                    &&& outgoing_view(r) == sent
                    &&& final(self)@ == (WindowView { tmux: Some(after), ..old(self)@ })
                },
            },
            (final(self)@, outgoing_view(r)) == size_synced(old(self)@, cols, rows),
    {
        match self.tmux.take() {
            Some(mut tmux) => {
                tmux.update_resize_future(false);
                let r = tmux.change_size(cols, rows);
                self.tmux = Some(tmux);
                r
            },
            None => None,
        }
    }

    /// The size may have changed; returns whether a resize has to be started.
    /// It has not where one is already running.
    pub fn resync_tmux_size(&mut self) -> (start: bool)
        requires
            old(self).wf(),
        ensures
            final(self).wf(),
            match old(self)@.tmux {
                None => !start && final(self)@ == old(self)@,
                Some(api) => {
                    &&& start == !api.resize_future
                    &&& final(self)@ == (WindowView {
                        tmux: Some(ApiView { resize_future: true, ..api }),
                        ..old(self)@
                    })
                },
            },
            (final(self)@, start) == resize_begun(old(self)@),
    {
        match self.tmux.take() {
            Some(mut tmux) => {
                let running = tmux.update_resize_future(true);
                self.tmux = Some(tmux);
                !running
            },
            None => false,
        }
    }

    pub fn rename_tmux_tab(&self, tab_id: u32, name: &str) -> (r: Option<Outgoing>)
        ensures
            outgoing_view(r) == (if self@.tmux is Some {
                Some(rename_command(tab_id, name@))
            } else {
                None
            }),
    {
        match &self.tmux {
            Some(tmux) => Some(tmux.rename_tab(tab_id, name)),
            None => None,
        }
    }

    /// A separator was dragged by `amount` cells; `term_id` is the first pane
    /// behind it.
    pub fn separator_drag_sync(&self, orientation: Orientation, amount: i32, term_id: u32) -> (r:
        Option<Outgoing>)
        requires
            amount != i32::MIN,
        ensures
            outgoing_view(r) == (if self@.tmux is Some {
                Some(
                    resize_command(
                        term_id,
                        drag_direction(orientation, amount as int),
                        (if amount < 0 {
                            -amount
                        } else {
                            amount as int
                        }) as u32,
                    ),
                )
            } else {
                None
            }),
    {
        let direction = match orientation {
            Orientation::Horizontal => if amount < 0 {
                Direction::Up
            } else {
                Direction::Down
            },
            Orientation::Vertical => if amount < 0 {
                Direction::Left
            } else {
                Direction::Right
            },
        };
        let cells: i32 = if amount < 0 {
            -amount
        } else {
            amount
        };
        match &self.tmux {
            Some(tmux) => Some(tmux.resize_pane(term_id, direction, cells as u32)),
            None => None,
        }
    }

    /// The command that a key binding stands for. Copy and paste never get
    /// here: the terminal handles them.
    pub fn tmux_handle_keybinding(&self, action: KeyboardAction, pane_id: u32) -> (r: Option<
        Outgoing,
    >)
        requires
            action != KeyboardAction::CopySelected,
            action != KeyboardAction::PasteClipboard,
        ensures
            outgoing_view(r) == (if self@.tmux is Some {
                keybinding_command(action, pane_id)
            } else {
                None
            }),
    {
        match &self.tmux {
            Some(tmux) => tmux.send_keybinding(action, pane_id),
            None => None,
        }
    }

    /// The user focused a pane.
    pub fn gtk_terminal_focus_changed(&self, term_id: u32) -> (r: Option<Outgoing>)
        ensures
            outgoing_view(r) == (if self@.tmux is Some {
                Some(select_terminal_command(term_id))
            } else {
                None
            }),
    {
        match &self.tmux {
            Some(tmux) => Some(tmux.select_terminal(term_id)),
            None => None,
        }
    }

    /// The user selected a tab. While the session is being set up this is
    /// ignored: the tabs that appear select themselves.
    pub fn gtk_tab_focus_changed(&mut self, tab_id: u32) -> (r: Option<Outgoing>)
        requires
            old(self).wf(),
        ensures
            final(self).wf(),
            old(self)@.init != TmuxInitState::Done ==> r is None && final(self)@ == old(self)@,
            old(self)@.init == TmuxInitState::Done ==> {
                &&& final(self)@ == (WindowView { focused_tab: tab_id, ..old(self)@ })
                &&& outgoing_view(r) == (if old(self)@.tmux is Some {
                    Some(select_tab_command(tab_id))
                } else {
                    None
                })
            },
            (final(self)@, outgoing_view(r)) == tab_picked(old(self)@, tab_id),
    {
        if self.init_layout_finished != TmuxInitState::Done {
            return None;
        }
        self.focused_tab = tab_id;
        match &self.tmux {
            Some(tmux) => Some(tmux.select_tab(tab_id)),
            None => None,
        }
    }

    /// A pane of the tab `tab_id` has appeared, with characters of the given
    /// size.
    pub fn register_terminal(&mut self, tab_id: u32, pane_id: u32, char_size: (i32, i32))
        requires
            old(self).wf(),
        ensures
            final(self).wf(),
            exists|at: int|
                0 <= at <= old(self)@.terminals.len() && final(self)@.terminals
                    == #[trigger] old(self)@.terminals.insert(at, pane_id),
            in_order(final(self)@.terminals),
            final(self)@ == (WindowView {
                terminals: final(self)@.terminals,
                tabs: if has_tab(old(self)@.tabs, tab_id) {
                    let i = tab_index(old(self)@.tabs, tab_id);
                    old(self)@.tabs.update(
                        i,
                        TabView {
                            terminals: old(self)@.tabs[i].terminals.push(pane_id),
                            ..old(self)@.tabs[i]
                        },
                    )
                } else {
                    old(self)@.tabs
                },
                char_size,
                ..old(self)@
            }),
    {
        let found = self.get_top_level(tab_id);
        let at: usize = self.terminals.insert(pane_id, &pane_id);
        assert(self@.terminals =~= old(self)@.terminals.insert(at as int, pane_id));
        self.char_size = char_size;
        if let Some(index) = found {
            self.tabs[index].terminals.push(pane_id);
            assert(self@.tabs =~= old(self)@.tabs.update(
                index as int,
                TabView {
                    terminals: old(self)@.tabs[index as int].terminals.push(pane_id),
                    ..old(self)@.tabs[index as int]
                },
            ));
        }
    }

    /// A pane has disappeared.
    pub fn unregister_terminal(&mut self, pane_id: u32)
        requires
            old(self).wf(),
        ensures
            final(self).wf(),
            !old(self)@.terminals.contains(pane_id) ==> final(self)@ == old(self)@,
            old(self)@.terminals.contains(pane_id) ==> exists|at: int|
                0 <= at < old(self)@.terminals.len() && old(self)@.terminals[at] == pane_id
                    && final(self)@ == (WindowView {
                    terminals: #[trigger] old(self)@.terminals.remove(at),
                    ..old(self)@
                }),
    {
        proof {
            lemma_ids(self.terminals@, pane_id);
        }
        let ghost before = self.terminals@;
        let removed = self.terminals.remove(pane_id);
        proof {
            if removed is Some {
                let at = choose|i: int|
                    0 <= i < before.len() && (#[trigger] before[i]).id == pane_id
                        && self.terminals@ == before.remove(i);
                assert(self@.terminals =~= old(self)@.terminals.remove(at));
            }
        }
    }

    /// The page of a tab is closing: its panes and the tab are forgotten. If
    /// the user closed the tab (rather than Tmux closing the window), the
    /// Tmux window is killed, so that it does not linger and get its tab
    /// recreated on the next layout change.
    pub fn tab_page_closed(&mut self, tab_id: u32) -> (r: Option<Outgoing>)
        requires
            old(self).wf(),
        ensures
            final(self).wf(),
            !has_tab(old(self)@.tabs, tab_id) ==> r is None && final(self)@ == old(self)@,
            has_tab(old(self)@.tabs, tab_id) ==> {
                let closing = old(self)@.tabs[tab_index(old(self)@.tabs, tab_id)];
                &&& final(self)@ == (WindowView {
                    terminals: panes_without(old(self)@.terminals, closing.terminals),
                    tabs: tabs_without(old(self)@.tabs, tab_id),
                    ..old(self)@
                })
                &&& outgoing_view(r) == (if old(self)@.tmux is Some && !closing.closed_by_tmux {
                    Some(kill_window_command(tab_id))
                } else {
                    None
                })
            },
            (final(self)@, outgoing_view(r)) == page_closed(old(self)@, tab_id),
    {
        let index: usize = match self.get_top_level(tab_id) {
            Some(index) => index,
            None => return None,
        };
        let mut closed: Vec<u32> = Vec::new();
        closed.extend_from_slice(self.tabs[index].terminals.as_slice());
        assert(closed@ =~= old(self)@.tabs[index as int].terminals);
        let by_tmux = self.tabs[index].closed_by_tmux;
        let keep = |entry: &WithId<u32>| -> (keep: bool)
            ensures
                keep == !closed@.contains(entry.id),
            { !holds(&closed, entry.id) };
        let ghost entries = self.terminals@;
        self.terminals.retain(keep);
        proof {
            let flags = choose|flags: Seq<bool>|
                flags.len() == entries.len() && #[trigger] flagged(entries, flags)
                    == self.terminals@ && forall|i: int|
                    0 <= i < flags.len() ==> keep.ensures((&entries[i],), #[trigger] flags[i]);
            assert forall|i: int| 0 <= i < flags.len() implies #[trigger] flags[i]
                == !closed@.contains(entries[i].id) by {
                assert(keep.ensures((&entries[i],), flags[i]));
            }
            lemma_flagged_panes(entries, flags, closed@);
        }
        self.forget_tab(tab_id);
        if by_tmux {
            None
        } else {
            self.tmux_kill_window(tab_id)
        }
    }

    /// Forgets the tabs with the number `tab_id`.
    fn forget_tab(&mut self, tab_id: u32)
        requires
            old(self).wf(),
        ensures
            final(self).wf(),
            final(self)@ == (WindowView {
                tabs: tabs_without(old(self)@.tabs, tab_id),
                ..old(self)@
            }),
    {
        let ghost all = self@.tabs;
        let mut kept: Vec<TmuxTopLevel> = Vec::new();
        let mut rest: Vec<TmuxTopLevel> = Vec::new();
        rest.append(&mut self.tabs);
        assert(tabs_view(rest@) =~= all);
        assert(tabs_view(kept@) =~= Seq::empty());
        for tab in it: rest
            invariant
                tabs_view(it.seq()) == all,
                tabs_view(kept@) == tabs_without(all.take(it.index() as int), tab_id),
        {
            let ghost n = it.index() as int;
            proof {
                assert(tab@ == all[n]);
                assert(all.take(n + 1).drop_last() =~= all.take(n));
                assert(all.take(n + 1).last() == all[n]);
            }
            if tab.tab_id != tab_id {
                let ghost before = kept@;
                kept.push(tab);
                assert(tabs_view(kept@) =~= tabs_view(before).push(all[n]));
            }
        }
        assert(all.take(all.len() as int) =~= all);
        self.tabs = kept;
    }
}

/// Keeping the entries that are not among `closed` keeps their numbers.
pub proof fn lemma_flagged_panes(entries: Seq<WithId<u32>>, flags: Seq<bool>, closed: Seq<u32>)
    requires
        flags.len() == entries.len(),
        forall|i: int|
            0 <= i < flags.len() ==> #[trigger] flags[i] == !closed.contains(entries[i].id),
    ensures
        ids(flagged(entries, flags)) == panes_without(ids(entries), closed),
    decreases entries.len(),
{
    if entries.len() == 0 {
        assert(ids(flagged(entries, flags)) =~= Seq::empty());
    } else {
        let front = entries.drop_last();
        assert forall|i: int| 0 <= i < flags.drop_last().len() implies #[trigger] flags.drop_last()[i]
            == !closed.contains(front[i].id) by {
            assert(flags[i] == !closed.contains(entries[i].id));
        }
        lemma_flagged_panes(front, flags.drop_last(), closed);
        assert(ids(entries).drop_last() =~= ids(front));
        assert(flags.last() == flags[entries.len() - 1]);
        assert(ids(flagged(entries, flags)) =~= panes_without(ids(entries), closed));
    }
}

// ---------------------------------------------------------------------------
// Laws
// ---------------------------------------------------------------------------

/// Whether the action asks for the initial output of some pane.
pub open spec fn asks_for_output(action: ActionView) -> bool {
    action matches ActionView::Transmit(outgoing) && outgoing.event is InitialOutput
}

/// The initial output of the panes is asked for only once Tmux has confirmed
/// the size that followed the initial layout, and then for every pane.
pub proof fn law_initial_output_follows_the_size(window: WindowView, event: EventView, now: u64)
    ensures
        ({
            let step = event_step(window, event, now);
            &&& (exists|i: int|
                0 <= i < step.actions.len() && asks_for_output(#[trigger] step.actions[i]))
                ==> event == EventView::SizeChanged && window.init == TmuxInitState::SyncingSize
            &&& event == EventView::SizeChanged && window.tmux is Some && window.init
                == TmuxInitState::SyncingSize ==> step.window.init == TmuxInitState::Done
                && step.actions == output_requests(window.terminals)
        }),
{
}

/// A finished connection is finished: no event changes the window or asks
/// anything of the widgets.
pub proof fn law_finished_windows_ignore_events(window: WindowView, event: EventView, now: u64)
    requires
        window.tmux is None,
    ensures
        event_step(window, event, now) == quiet(window),
{
}

/// A text that was stored from a local selection is not fetched back: the
/// notification that Tmux sends about it asks nothing, and leaves the window
/// as it was before.
pub proof fn law_own_selection_is_not_fetched_back(
    window: WindowView,
    text: Seq<char>,
    name: Seq<char>,
    now: u64,
)
    requires
        window.tmux is Some,
        buffer_set(window.tmux->Some_0, text).1 is Some,
    ensures
        ({
            let stored = WindowView {
                tmux: Some(buffer_set(window.tmux->Some_0, text).0),
                ..window
            };
            event_step(stored, EventView::PasteBufferChanged(name), now) == quiet(window)
        }),
{
}

/// Panes and tabs of other windows are none of this window's business.
pub proof fn law_unknown_panes_are_ignored(
    window: WindowView,
    pane_id: u32,
    output: Seq<u8>,
    initial: bool,
    now: u64,
)
    requires
        !window.terminals.contains(pane_id),
    ensures
        event_step(window, EventView::Output(pane_id, output, initial), now) == quiet(window),
        event_step(window, EventView::InitialOutputFinished(pane_id), now) == quiet(window),
        event_step(window, EventView::ScrollbackCleared(pane_id), now) == quiet(window),
{
}

/// A tab that Tmux closed is not killed again when its page closes, whatever
/// happens in between to other tabs.
pub proof fn law_tabs_closed_by_tmux_are_marked(window: WindowView, tab_id: u32, now: u64)
    requires
        window.tmux is Some,
        has_tab(window.tabs, tab_id),
    ensures
        ({
            let after = event_step(window, EventView::TabClosed(tab_id), now).window;
            &&& has_tab(after.tabs, tab_id)
            &&& after.tabs[tab_index(after.tabs, tab_id)].closed_by_tmux
        }),
{
    let n = lemma_first_tab(window.tabs, tab_id);
    let after = tab_marked(window.tabs, tab_id);
    assert forall|i: int| 0 <= i < n implies (#[trigger] after[i]).tab_id != tab_id by {
        assert(window.tabs[i].tab_id != tab_id);
    }
    lemma_tab_index(after, tab_id, n);
}

proof fn lemma_first_tab(tabs: Seq<TabView>, id: u32) -> (n: int)
    requires
        has_tab(tabs, id),
    ensures
        n == tab_index(tabs, id),
        0 <= n < tabs.len(),
        tabs[n].tab_id == id,
        forall|i: int| 0 <= i < n ==> (#[trigger] tabs[i]).tab_id != id,
    decreases tabs.len(),
{
    if tabs[0].tab_id == id {
        0
    } else {
        let i = choose|i: int| 0 <= i < tabs.len() && (#[trigger] tabs[i]).tab_id == id;
        assert(tabs.skip(1)[i - 1].tab_id == id);
        let n = lemma_first_tab(tabs.skip(1), id);
        assert forall|j: int| 0 <= j < n + 1 implies (#[trigger] tabs[j]).tab_id != id by {
            if j > 0 {
                assert(tabs.skip(1)[j - 1].tab_id != id);
            }
        }
        n + 1
    }
}

/// A window behind the layouts that an attached session lists, in order.
pub open spec fn after_layouts(window: WindowView, layouts: Seq<LayoutView>, now: u64) -> WindowView
    decreases layouts.len(),
{
    if layouts.len() == 0 {
        window
    } else {
        event_step(
            after_layouts(window, layouts.drop_last(), now),
            EventView::InitialLayout(layouts.last()),
            now,
        ).window
    }
}

/// A layout brings its tab with it: the tab is there afterwards, the others
/// stay as they were and where they were, a new one comes last, and the
/// widgets are told to show it first where it is new, and then to follow the
/// layout. The tab has the focus from then on exactly where the layout says so.
pub proof fn law_layouts_bring_their_tab(window: WindowView, layout: LayoutView, now: u64)
    requires
        window.tmux is Some,
    ensures
        ({
            let step = event_step(window, EventView::LayoutChanged(layout), now);
            let n = window.tabs.len() as int;
            &&& event_step(window, EventView::InitialLayout(layout), now) == step
            &&& event_step(window, EventView::TabNew(layout), now) == step
            &&& has_tab(step.window.tabs, layout.tab_id)
            &&& step.window.tabs.take(n) == window.tabs
            &&& has_tab(window.tabs, layout.tab_id) ==> step.window.tabs.len() == n && step.actions
                == seq![ActionView::SyncLayout(layout)]
            &&& !has_tab(window.tabs, layout.tab_id) ==> {
                &&& step.window.tabs.len() == n + 1
                &&& step.window.tabs[n].tab_id == layout.tab_id
                &&& step.window.tabs[n].terminals.len() == 0
                &&& !step.window.tabs[n].closed_by_tmux
                &&& step.actions == seq![
                    ActionView::NewTab(layout.tab_id),
                    ActionView::SyncLayout(layout),
                ]
            }
            &&& layout.flags.has_focus ==> step.window.focused_tab == layout.tab_id
            &&& !layout.flags.has_focus ==> step.window.focused_tab == window.focused_tab
            &&& step.window == (WindowView {
                tabs: step.window.tabs,
                focused_tab: step.window.focused_tab,
                ..window
            })
        }),
{
    let step = event_step(window, EventView::LayoutChanged(layout), now);
    let n = window.tabs.len() as int;
    if has_tab(window.tabs, layout.tab_id) {
        assert(step.window.tabs.take(n) =~= window.tabs);
    } else {
        assert(step.window.tabs[n].tab_id == layout.tab_id);
        assert(step.window.tabs.take(n) =~= window.tabs);
    }
}

proof fn lemma_focus_after_layouts(
    window: WindowView,
    layouts: Seq<LayoutView>,
    k: int,
    now: u64,
)
    requires
        window.tmux is Some,
        0 <= k < layouts.len(),
        layouts[k].flags.has_focus,
        forall|i: int| k < i < layouts.len() ==> !(#[trigger] layouts[i]).flags.has_focus,
    ensures
        ({
            let after = after_layouts(window, layouts, now);
            &&& after.tmux is Some
            &&& after.focused_tab == layouts[k].tab_id
            &&& has_tab(after.tabs, layouts[k].tab_id)
            &&& after.init == window.init
        }),
    decreases layouts.len(),
{
    let front = layouts.drop_last();
    let before = after_layouts(window, front, now);
    lemma_layouts_keep_tmux(window, front, now);
    law_layouts_bring_their_tab(before, layouts.last(), now);
    let after = after_layouts(window, layouts, now);
    if k < front.len() {
        assert forall|i: int| k < i < front.len() implies !(#[trigger] front[i]).flags.has_focus by {
            assert(!layouts[i].flags.has_focus);
        }
        lemma_focus_after_layouts(window, front, k, now);
        assert(!layouts[layouts.len() - 1].flags.has_focus);
        let i = choose|i: int|
            0 <= i < before.tabs.len() && (#[trigger] before.tabs[i]).tab_id == layouts[k].tab_id;
        assert(after.tabs.take(before.tabs.len() as int)[i] == before.tabs[i]);
        assert(after.tabs[i].tab_id == layouts[k].tab_id);
    }
}

proof fn lemma_layouts_keep_tmux(window: WindowView, layouts: Seq<LayoutView>, now: u64)
    requires
        window.tmux is Some,
    ensures
        after_layouts(window, layouts, now).tmux is Some,
        after_layouts(window, layouts, now).init == window.init,
    decreases layouts.len(),
{
    if layouts.len() > 0 {
        lemma_layouts_keep_tmux(window, layouts.drop_last(), now);
    }
}

/// Once the initial layout is complete, the tab is shown that has the focus in
/// Tmux: the one whose layout came last with the focus flag, wherever it stands
/// among the others.
pub proof fn law_focused_tab_is_shown(
    window: WindowView,
    layouts: Seq<LayoutView>,
    k: int,
    now: u64,
)
    requires
        window.tmux is Some,
        0 <= k < layouts.len(),
        layouts[k].flags.has_focus,
        forall|i: int| k < i < layouts.len() ==> !(#[trigger] layouts[i]).flags.has_focus,
    ensures
        ({
            let step = event_step(
                after_layouts(window, layouts, now),
                EventView::InitialLayoutFinished,
                now,
            );
            &&& step.actions == seq![ActionView::SelectTab(layouts[k].tab_id)]
            &&& step.window.init == TmuxInitState::SyncingSize
            &&& step.window.focused_tab == layouts[k].tab_id
        }),
{
    lemma_focus_after_layouts(window, layouts, k, now);
}

/// A tab that gets the focus in Tmux is selected, unless it is selected
/// already, and the next report of the same focus changes nothing.
pub proof fn law_tabs_follow_the_focus(window: WindowView, tab_id: u32, now: u64)
    requires
        window.tmux is Some,
    ensures
        ({
            let step = event_step(window, EventView::TabFocusChanged(tab_id), now);
            &&& step.window == (WindowView { focused_tab: tab_id, ..window })
            &&& has_tab(window.tabs, tab_id) && window.focused_tab != tab_id ==> step.actions
                == seq![ActionView::SelectTab(tab_id)]
            &&& !has_tab(window.tabs, tab_id) || window.focused_tab == tab_id
                ==> step.actions.len() == 0
            &&& event_step(step.window, EventView::TabFocusChanged(tab_id), now) == quiet(
                step.window,
            )
        }),
{
}

/// What concerns a pane of this window is done to that pane, exactly once, and
/// changes nothing else: its output is shown as it came, initial or not, and
/// its screen is scrolled, completed or cleared.
pub proof fn law_pane_events_reach_their_pane(
    window: WindowView,
    pane_id: u32,
    output: Seq<u8>,
    initial: bool,
    lines: usize,
    now: u64,
)
    requires
        window.tmux is Some,
        window.terminals.contains(pane_id),
    ensures
        event_step(window, EventView::Output(pane_id, output, initial), now) == (WindowStep {
            window,
            actions: seq![ActionView::FeedOutput(pane_id, output, initial)],
        }),
        event_step(window, EventView::ScrollOutput(pane_id, lines), now) == (WindowStep {
            window,
            actions: seq![ActionView::ScrollView(pane_id, lines)],
        }),
        event_step(window, EventView::InitialOutputFinished(pane_id), now) == (WindowStep {
            window,
            actions: seq![ActionView::InitialOutputFinished(pane_id)],
        }),
        event_step(window, EventView::ScrollbackCleared(pane_id), now) == (WindowStep {
            window,
            actions: seq![ActionView::ClearScrollback(pane_id)],
        }),
{
}

/// What concerns a tab of this window is done to that tab, exactly once: it is
/// renamed, closed, or one of its panes gets the focus. A tab that another
/// client added is asked for, where it is not there yet.
pub proof fn law_tab_events_reach_their_tab(
    window: WindowView,
    tab_id: u32,
    pane_id: u32,
    name: Seq<char>,
    now: u64,
)
    requires
        window.tmux is Some,
    ensures
        has_tab(window.tabs, tab_id) ==> {
            &&& event_step(window, EventView::TabRenamed(tab_id, name), now) == (WindowStep {
                window,
                actions: seq![ActionView::RenameTab(tab_id, name)],
            })
            &&& event_step(window, EventView::PaneFocusChanged(tab_id, pane_id), now) == (
            WindowStep { window, actions: seq![ActionView::SelectTerminal(tab_id, pane_id)] })
            &&& event_step(window, EventView::TabClosed(tab_id), now).actions == seq![
                ActionView::CloseTab(tab_id),
            ]
            &&& event_step(window, EventView::WindowAdded(tab_id), now) == quiet(window)
        },
        !has_tab(window.tabs, tab_id) ==> {
            &&& event_step(window, EventView::TabRenamed(tab_id, name), now) == quiet(window)
            &&& event_step(window, EventView::PaneFocusChanged(tab_id, pane_id), now) == quiet(
                window,
            )
            &&& event_step(window, EventView::TabClosed(tab_id), now) == quiet(window)
            &&& event_step(window, EventView::WindowAdded(tab_id), now) == (WindowStep {
                window,
                actions: seq![ActionView::Transmit(window_layout_command(tab_id))],
            })
        },
{
}

/// Closing a tab marks that tab and changes no other, nor anything else.
pub proof fn law_closing_marks_one_tab(window: WindowView, tab_id: u32, now: u64, i: int)
    requires
        window.tmux is Some,
        0 <= i < window.tabs.len(),
        window.tabs[i].tab_id != tab_id,
    ensures
        ({
            let after = event_step(window, EventView::TabClosed(tab_id), now).window;
            &&& after.tabs.len() == window.tabs.len()
            &&& after.tabs[i] == window.tabs[i]
            &&& after == (WindowView { tabs: after.tabs, ..window })
        }),
{
    if has_tab(window.tabs, tab_id) {
        let n = lemma_first_tab(window.tabs, tab_id);
    }
}

/// The connection speaks once Tmux has: the first report of the session asks
/// for the layout of all its windows, the same report again asks nothing, and
/// another session closes the window, as does the end of the connection.
pub proof fn law_windows_keep_to_their_session(
    window: WindowView,
    id: u32,
    name: Seq<char>,
    other: (u32, Seq<char>),
    now: u64,
)
    requires
        window.tmux is Some,
        window.session is None,
        other != (id, name),
    ensures
        ({
            let first = event_step(window, EventView::SessionChanged(id, name), now);
            let again = event_step(first.window, EventView::SessionChanged(id, name), now);
            let changed = event_step(
                first.window,
                EventView::SessionChanged(other.0, other.1),
                now,
            );
            &&& first.actions.len() == 1
            &&& first.actions[0] is Transmit
            &&& first.actions[0]->Transmit_0.event == TmuxCommand::InitialLayout
            &&& first.window == (WindowView { session: Some((id, name)), ..window })
            &&& again == quiet(first.window)
            &&& changed.actions == seq![ActionView::CloseWindow]
        }),
        event_step(window, EventView::Exit, now).actions == seq![ActionView::CloseWindow],
{
}

/// The initial output is asked for pane by pane, of every pane and of no other,
/// once the size is confirmed; a size that is confirmed at another time asks
/// nothing.
pub proof fn law_every_pane_is_restored(window: WindowView, now: u64)
    requires
        window.tmux is Some,
    ensures
        ({
            let step = event_step(window, EventView::SizeChanged, now);
            &&& window.init == TmuxInitState::SyncingSize ==> {
                &&& step.actions.len() == window.terminals.len()
                &&& forall|i: int|
                    0 <= i < window.terminals.len() ==> (#[trigger] step.actions[i]) is Transmit
                        && step.actions[i]->Transmit_0.event == TmuxCommand::InitialOutput(
                        window.terminals[i],
                    )
                &&& step.window == (WindowView { init: TmuxInitState::Done, ..window })
            }
            &&& window.init != TmuxInitState::SyncingSize ==> step == quiet(window)
        }),
{
}

/// Texts that Tmux holds reach the clipboard as they are, and a paste buffer
/// that another client has changed is fetched by its name.
pub proof fn law_buffers_reach_the_clipboard(window: WindowView, text: Seq<char>, now: u64)
    requires
        window.tmux is Some,
    ensures
        event_step(window, EventView::ClipboardText(text), now) == (WindowStep {
            window,
            actions: seq![ActionView::SetClipboard(text)],
        }),
        window.tmux->Some_0.echoes == 0 ==> event_step(
            window,
            EventView::PasteBufferChanged(text),
            now,
        ) == (WindowStep { window, actions: seq![ActionView::Transmit(fetch_command(text))] }),
{
}

/// An acknowledgement belongs to the oldest key press: it measures the time
/// since then, where that is at most two seconds, and takes it off the list in
/// any case. Without a key press it means nothing.
pub proof fn law_acknowledgements_are_paired_in_order(window: WindowView, now: u64)
    requires
        window.tmux is Some,
    ensures
        ({
            let step = event_step(window, EventView::KeypressAck, now);
            &&& window.sent.len() == 0 ==> step == quiet(window)
            &&& window.sent.len() > 0 ==> {
                let first = window.sent[0];
                &&& step.window == (WindowView { sent: window.sent.skip(1), ..window })
                &&& first <= now <= first + 2_000_000_000 ==> step.actions == seq![
                    ActionView::RttSample((now - first) as u64),
                ]
                &&& now > first + 2_000_000_000 ==> step.actions.len() == 0
                &&& now < first ==> step.actions == seq![ActionView::RttSample(0)]
            }
        }),
{
}

/// Key presses whose acknowledgement has not come within two seconds are given
/// up, oldest first; the others stay, in order.
pub proof fn law_stale_key_presses_are_dropped(sent: Seq<u64>, now: u64)
    ensures
        exists|n: int|
            {
                &&& 0 <= n <= sent.len()
                &&& fresh(sent, now) == #[trigger] sent.skip(n)
                &&& forall|i: int| 0 <= i < n ==> now > #[trigger] sent[i] + 2_000_000_000
                &&& n < sent.len() ==> now <= sent[n] + 2_000_000_000
            },
{
    let n = lemma_fresh(sent, now);
    let kept = sent.skip(n);
    assert(kept.len() == sent.len() - n);
}

proof fn lemma_fresh(sent: Seq<u64>, now: u64) -> (n: int)
    ensures
        0 <= n <= sent.len(),
        fresh(sent, now) == sent.skip(n),
        forall|i: int| 0 <= i < n ==> now > #[trigger] sent[i] + 2_000_000_000,
        n < sent.len() ==> now <= sent[n] + 2_000_000_000,
    decreases sent.len(),
{
    if sent.len() > 0 && now > sent[0] + 2_000_000_000 {
        let n = lemma_fresh(sent.skip(1), now);
        assert(sent.skip(1).skip(n) =~= sent.skip(n + 1));
        assert forall|i: int| 0 <= i < n + 1 implies now > #[trigger] sent[i] + 2_000_000_000 by {
            if i > 0 {
                assert(sent[i] == sent.skip(1)[i - 1]);
            }
        }
        n + 1
    } else {
        assert(sent.skip(0) =~= sent);
        0
    }
}

/// A closed tab is forgotten, and no other; a pane is forgotten exactly where
/// it is among those of the closed tab.
pub proof fn law_closed_tabs_are_forgotten(
    tabs: Seq<TabView>,
    closed_tab: u32,
    id: u32,
    panes: Seq<u32>,
    closed: Seq<u32>,
    pane: u32,
)
    ensures
        has_tab(tabs_without(tabs, closed_tab), id) == (id != closed_tab && has_tab(tabs, id)),
        panes_without(panes, closed).contains(pane) == (panes.contains(pane) && !closed.contains(
            pane,
        )),
        tabs_without(tabs, closed_tab) == tabs.filter(|tab: TabView| tab.tab_id != closed_tab),
        panes_without(panes, closed) == panes.filter(|pane: u32| !closed.contains(pane)),
{
    lemma_tabs_filter(tabs, closed_tab);
    lemma_panes_filter(panes, closed);
    let kept = tabs_without(tabs, closed_tab);
    let keep = |tab: TabView| tab.tab_id != closed_tab;
    if has_tab(kept, id) {
        let i = choose|i: int| 0 <= i < kept.len() && (#[trigger] kept[i]).tab_id == id;
        assert(kept.contains(kept[i]));
        tabs.lemma_filter_contains_rev(keep, kept[i]);
        tabs.lemma_filter_pred(keep, i);
        let j = choose|j: int| 0 <= j < tabs.len() && tabs[j] == kept[i];
        assert(tabs[j].tab_id == id);
    }
    if id != closed_tab && has_tab(tabs, id) {
        let j = choose|j: int| 0 <= j < tabs.len() && (#[trigger] tabs[j]).tab_id == id;
        tabs.lemma_filter_contains(keep, j);
        let i = choose|i: int| 0 <= i < kept.len() && kept[i] == tabs[j];
        assert(kept[i].tab_id == id);
    }
    let stays = |pane: u32| !closed.contains(pane);
    let left = panes_without(panes, closed);
    if left.contains(pane) {
        panes.lemma_filter_contains_rev(stays, pane);
        let i = choose|i: int| 0 <= i < left.len() && left[i] == pane;
        panes.lemma_filter_pred(stays, i);
    }
    if panes.contains(pane) && !closed.contains(pane) {
        let i = choose|i: int| 0 <= i < panes.len() && panes[i] == pane;
        panes.lemma_filter_contains(stays, i);
    }
}

proof fn lemma_tabs_filter(tabs: Seq<TabView>, closed_tab: u32)
    ensures
        tabs_without(tabs, closed_tab) == tabs.filter(|tab: TabView| tab.tab_id != closed_tab),
    decreases tabs.len(),
{
    reveal(Seq::filter);
    if tabs.len() > 0 {
        lemma_tabs_filter(tabs.drop_last(), closed_tab);
    }
}

proof fn lemma_panes_filter(panes: Seq<u32>, closed: Seq<u32>)
    ensures
        panes_without(panes, closed) == panes.filter(|pane: u32| !closed.contains(pane)),
    decreases panes.len(),
{
    reveal(Seq::filter);
    if panes.len() > 0 {
        lemma_panes_filter(panes.drop_last(), closed);
    }
}

/// A separator that is dragged back goes the other way: a horizontal one up
/// and down, a vertical one left and right.
pub proof fn law_drags_go_both_ways(amount: int)
    requires
        amount > 0,
    ensures
        drag_direction(Orientation::Horizontal, amount) == Direction::Down,
        drag_direction(Orientation::Horizontal, -amount) == Direction::Up,
        drag_direction(Orientation::Vertical, amount) == Direction::Right,
        drag_direction(Orientation::Vertical, -amount) == Direction::Left,
{
}

/// What is not shown is left alone: an event of a pane that no terminal shows
/// changes nothing, and the end of the initial layout selects no tab where
/// none is known by the number that has the focus.
pub proof fn law_unknown_targets_are_left_alone(
    window: WindowView,
    pane_id: u32,
    lines: usize,
    now: u64,
)
    requires
        window.tmux is Some,
    ensures
        !window.terminals.contains(pane_id) ==> event_step(
            window,
            EventView::ScrollOutput(pane_id, lines),
            now,
        ) == quiet(window),
        (forall|i: int|
            0 <= i < window.tabs.len() ==> (#[trigger] window.tabs[i]).tab_id
                != window.focused_tab) ==> {
            let step = event_step(window, EventView::InitialLayoutFinished, now);
            &&& step.actions.len() == 0
            &&& step.window == (WindowView { init: TmuxInitState::SyncingSize, ..window })
        },
        quiet(window).window == window,
        quiet(window).actions.len() == 0,
{
}

/// Each change of a buffer that this client caused is passed over once: of any
/// number of announcements, as many are passed over as selections were stored.
pub proof fn law_own_changes_are_passed_over_once(window: WindowView, name: Seq<char>, now: u64)
    requires
        window.tmux is Some,
        window.tmux->Some_0.echoes > 0,
    ensures
        ({
            let step = event_step(window, EventView::PasteBufferChanged(name), now);
            &&& step.actions.len() == 0
            &&& step.window.tmux is Some
            &&& step.window.tmux->Some_0.echoes == window.tmux->Some_0.echoes - 1
            &&& step.window == (WindowView { tmux: step.window.tmux, ..window })
        }),
{
}

/// A tab is known where it stands among the tabs, and is found where it
/// stands first.
pub proof fn law_tabs_are_found(tabs: Seq<TabView>, i: int)
    requires
        0 <= i < tabs.len(),
        forall|j: int| 0 <= j < i ==> (#[trigger] tabs[j]).tab_id != tabs[i].tab_id,
    ensures
        has_tab(tabs, tabs[i].tab_id),
        tab_index(tabs, tabs[i].tab_id) == i,
{
    lemma_tab_index(tabs, tabs[i].tab_id, i);
}

/// What typing into a pane does.
pub open spec fn input_sent(window: WindowView, pane_id: u32, text: Seq<char>, now: u64) -> (
    WindowView,
    Option<OutgoingView>,
) {
    if window.tmux is None {
        (window, None)
    } else {
        (
            WindowView { sent: fresh(window.sent, now).push(now), ..window },
            input_command(pane_id, text),
        )
    }
}

/// What synchronizing the size does.
pub open spec fn size_synced(window: WindowView, cols: i32, rows: i32) -> (
    WindowView,
    Option<OutgoingView>,
) {
    match window.tmux {
        None => (window, None),
        Some(api) => {
            let (after, sent) = resized(ApiView { resize_future: false, ..api }, cols, rows);
            (WindowView { tmux: Some(after), ..window }, sent)
        },
    }
}

/// What picking the page of a tab does.
pub open spec fn tab_picked(window: WindowView, tab_id: u32) -> (
    WindowView,
    Option<OutgoingView>,
) {
    if window.init != TmuxInitState::Done {
        (window, None)
    } else {
        (
            WindowView { focused_tab: tab_id, ..window },
            if window.tmux is Some {
                Some(select_tab_command(tab_id))
            } else {
                None
            },
        )
    }
}

/// What closing the page of a tab does.
pub open spec fn page_closed(window: WindowView, tab_id: u32) -> (
    WindowView,
    Option<OutgoingView>,
) {
    if !has_tab(window.tabs, tab_id) {
        (window, None)
    } else {
        let closing = window.tabs[tab_index(window.tabs, tab_id)];
        (
            WindowView {
                terminals: panes_without(window.terminals, closing.terminals),
                tabs: tabs_without(window.tabs, tab_id),
                ..window
            },
            if window.tmux is Some && !closing.closed_by_tmux {
                Some(kill_window_command(tab_id))
            } else {
                None
            },
        )
    }
}

/// The reply to a key press tells how long it took: what is typed while no
/// other key press waits is sampled with the time between typing and reply,
/// and does not wait afterwards.
pub proof fn law_round_trips_are_measured(
    window: WindowView,
    pane_id: u32,
    text: Seq<char>,
    typed: u64,
    answered: u64,
)
    requires
        window.tmux is Some,
        window.sent.len() == 0,
        typed <= answered <= typed + 2_000_000_000,
    ensures
        ({
            let (after, sent) = input_sent(window, pane_id, text, typed);
            let step = event_step(after, EventView::KeypressAck, answered);
            &&& text.len() > 0 <==> sent is Some
            &&& sent is Some ==> sent->Some_0.event == TmuxCommand::Keypress
            &&& step.actions == seq![ActionView::RttSample((answered - typed) as u64)]
            &&& step.window == window
        }),
{
    let (after, _) = input_sent(window, pane_id, text, typed);
    assert(fresh(window.sent, typed) =~= Seq::empty());
    assert(after.sent.skip(1) =~= window.sent);
}

/// A size is told once: asking for it again sends nothing, and a window that
/// no client is attached to tells nobody.
pub proof fn law_sizes_are_told_once(window: WindowView, cols: i32, rows: i32)
    ensures
        window.tmux is None ==> size_synced(window, cols, rows) == (window, None::<OutgoingView>),
        window.tmux is Some ==> {
            let (after, sent) = size_synced(window, cols, rows);
            &&& size_synced(after, cols, rows) == (after, None::<OutgoingView>)
            &&& sent is None <==> window.tmux->Some_0.window_size == (cols, rows)
            &&& sent is Some ==> sent->Some_0.event == TmuxCommand::ChangeSize(cols, rows)
            &&& after.tmux is Some
            &&& after.tmux->Some_0.window_size == (cols, rows)
            &&& !after.tmux->Some_0.resize_future
            &&& after == (WindowView { tmux: after.tmux, ..window })
        },
{
}

/// Picking a tab does not bounce: Tmux is asked for that very tab, and the
/// announcement that it has the focus then changes nothing. While the session
/// is still being set up, picking a tab does nothing.
pub proof fn law_picked_tabs_do_not_bounce(window: WindowView, tab_id: u32, now: u64)
    requires
        window.tmux is Some,
    ensures
        ({
            let (after, sent) = tab_picked(window, tab_id);
            &&& window.init == TmuxInitState::Done ==> {
                &&& sent is Some
                &&& sent->Some_0.event == TmuxCommand::TabSelect(tab_id)
                &&& after.focused_tab == tab_id
                &&& event_step(after, EventView::TabFocusChanged(tab_id), now) == quiet(after)
            }
            &&& window.init != TmuxInitState::Done ==> after == window && sent is None
        }),
{
}

/// A closed page leaves nothing behind: neither its tab nor a pane of it is
/// known afterwards, and everything else is. Tmux is told to close the window
/// where the user closed the page, and not where Tmux closed it itself.
pub proof fn law_closed_pages_leave_nothing(
    window: WindowView,
    tab_id: u32,
    other: u32,
    pane: u32,
    now: u64,
)
    requires
        window.tmux is Some,
        has_tab(window.tabs, tab_id),
    ensures
        ({
            let (after, sent) = page_closed(window, tab_id);
            let closing = window.tabs[tab_index(window.tabs, tab_id)];
            let marked = event_step(window, EventView::TabClosed(tab_id), now).window;
            &&& !has_tab(after.tabs, tab_id)
            &&& other != tab_id ==> has_tab(after.tabs, other) == has_tab(window.tabs, other)
            &&& closing.terminals.contains(pane) ==> !after.terminals.contains(pane)
            &&& !closing.terminals.contains(pane) ==> after.terminals.contains(pane)
                == window.terminals.contains(pane)
            &&& closing.closed_by_tmux <==> sent is None
            &&& sent is Some ==> sent->Some_0.event == TmuxCommand::TabClose && sent->Some_0.cmd
                == "kill-window -t @"@ + decimal(tab_id as nat)
            &&& page_closed(marked, tab_id).1 is None
            &&& page_closed(after, tab_id) == (after, None::<OutgoingView>)
        }),
{
    let closing = window.tabs[tab_index(window.tabs, tab_id)];
    law_closed_tabs_are_forgotten(
        window.tabs,
        tab_id,
        tab_id,
        window.terminals,
        closing.terminals,
        pane,
    );
    law_closed_tabs_are_forgotten(
        window.tabs,
        tab_id,
        other,
        window.terminals,
        closing.terminals,
        pane,
    );
    law_tabs_closed_by_tmux_are_marked(window, tab_id, now);
}

/// What a change of the size of the window does.
pub open spec fn resize_begun(window: WindowView) -> (WindowView, bool) {
    match window.tmux {
        None => (window, false),
        Some(api) => (
            WindowView { tmux: Some(ApiView { resize_future: true, ..api }), ..window },
            !api.resize_future,
        ),
    }
}

/// The changes of the size up to the next synchronization are taken together:
/// the first one starts the wait for it, the others start none, and once the
/// size is synchronized the next change starts another.
pub proof fn law_resizes_are_taken_together(window: WindowView, cols: i32, rows: i32)
    requires
        window.tmux is Some,
        !window.tmux->Some_0.resize_future,
    ensures
        ({
            let (waiting, first) = resize_begun(window);
            let (again, second) = resize_begun(waiting);
            let (done, _) = size_synced(again, cols, rows);
            &&& first
            &&& !second
            &&& again == waiting
            &&& waiting.tmux is Some
            &&& waiting.tmux->Some_0.window_size == window.tmux->Some_0.window_size
            &&& resize_begun(done).1
            &&& done == size_synced(window, cols, rows).0
        }),
{
}

} // verus!
