//! The commands that are sent to Tmux.

use vstd::prelude::*;
use vstd::utf8::{encode_utf8, is_ascii_chars, is_ascii_chars_encode_utf8};

use super::receive::{escapes_ok, octal, unescaped};
use super::TmuxCommand;
use crate::keyboard::{tmux_route, Direction, KeyboardAction};
use crate::text::{
    chars_of, contains_text, decimal, hex_byte, law_decimal_is_read_back,
    law_hex_bytes_are_read_back, law_other_text_is_not_replaced, lemma_encode_concat,
    lemma_replaced_concat, lemma_replaced_one, occurs_at, push_chars, push_decimal, push_hex_byte,
    push_signed_decimal, replace_all, replaced, signed_decimal, value_in_base,
};

verus! {

/// A selection larger than this is not synced to Tmux: it would produce a
/// multi-megabyte command line and stall the UI on the blocking write
pub const MAX_SYNC_BYTES: usize = 256 * 1024;

// ---------------------------------------------------------------------------
// Quoting
// ---------------------------------------------------------------------------

/// Whether the byte stands for itself inside a double-quoted Tmux argument,
/// whatever Tmux expands there.
pub open spec fn is_safe(b: u8) -> bool {
    ||| 65 <= b <= 90
    ||| 97 <= b <= 122
    ||| 48 <= b <= 57
    // space , . _ - / : = + @
    ||| b == 32 || b == 44 || b == 46 || b == 95 || b == 45
    ||| b == 47 || b == 58 || b == 61 || b == 43 || b == 64
}

/// A byte as it is written inside double quotes: a safe one as it is, any
/// other as a backslash and three octal digits.
pub open spec fn escaped_byte(b: u8) -> Seq<char> {
    if is_safe(b) {
        seq![b as char]
    } else {
        seq!['\\', (48 + b / 64) as char, (48 + b / 8 % 8) as char, (48 + b % 8) as char]
    }
}

/// Bytes as they are written inside double quotes.
pub open spec fn escaped(bytes: Seq<u8>) -> Seq<char>
    decreases bytes.len(),
{
    if bytes.len() == 0 {
        Seq::empty()
    } else {
        escaped(bytes.drop_last()) + escaped_byte(bytes.last())
    }
}

/// Escapes arbitrary text for use inside a double-quoted Tmux command
/// argument. Everything but the safest ASCII characters is emitted as a
/// \ooo octal escape, sidestepping all of Tmux's quoting, format (#{...})
/// and variable ($...) expansion rules; Tmux decodes the octal escapes
/// back to raw bytes
pub fn escape_for_tmux_quotes(text: &str) -> (r: String)
    ensures
        r@ == escaped(encode_utf8(text@)),
{
    let bytes = text.as_bytes();
    let mut out = String::new();
    let mut i: usize = 0;
    assert(bytes@.take(0) =~= Seq::empty());
    while i < bytes.len()
        invariant
            i <= bytes@.len(),
            out@ == escaped(bytes@.take(i as int)),
        decreases bytes@.len() - i,
    {
        let b: u8 = bytes[i];
        let ghost before = out@;
        assert(bytes@.take(i + 1).drop_last() =~= bytes@.take(i as int));
        if (65 <= b && b <= 90) || (97 <= b && b <= 122) || (48 <= b && b <= 57) || b == 32 || b
            == 44 || b == 46 || b == 95 || b == 45 || b == 47 || b == 58 || b == 61 || b == 43 || b
            == 64 {
            out.push(b as char);
        } else {
            out.push('\\');
            let high: u8 = 48 + b / 64;
            let middle: u8 = 48 + b / 8 % 8;
            let low: u8 = 48 + b % 8;
            out.push(high as char);
            out.push(middle as char);
            out.push(low as char);
        }
        assert(out@ =~= before + escaped_byte(b));
        i += 1;
    }
    assert(bytes@.take(i as int) =~= bytes@);
    out
}

// ---------------------------------------------------------------------------
// Commands
// ---------------------------------------------------------------------------

/// A command for Tmux: the line to write, and what its reply will mean.
#[derive(Debug)]
pub struct Outgoing {
    pub event: TmuxCommand,
    pub cmd: String,
}

/// Mathematical value of an `Outgoing`.
pub struct OutgoingView {
    pub event: TmuxCommand,
    pub cmd: Seq<char>,
}

impl View for Outgoing {
    type V = OutgoingView;

    open spec fn view(&self) -> OutgoingView {
        OutgoingView { event: self.event, cmd: self.cmd@ }
    }
}

/// The value of a command that may not have to be sent.
pub open spec fn outgoing_view(outgoing: Option<Outgoing>) -> Option<OutgoingView> {
    match outgoing {
        Some(outgoing) => Some(outgoing@),
        None => None,
    }
}

impl Outgoing {
    /// The bytes to write to Tmux: the command and the line feed that ends it.
    pub fn line(&self) -> (bytes: Vec<u8>)
        ensures
            bytes@ == encode_utf8(self@.cmd).push(10),
    {
        let mut bytes: Vec<u8> = Vec::new();
        bytes.extend_from_slice(self.cmd.as_str().as_bytes());
        bytes.push(10);
        assert(bytes@ =~= encode_utf8(self@.cmd).push(10));
        bytes
    }
}

/// `prefix`, a number in base ten, `suffix`.
fn numbered(prefix: &str, n: u32, suffix: &str) -> (r: String)
    ensures
        r@ == prefix@ + decimal(n as nat) + suffix@,
{
    let mut r = prefix.to_string();
    push_decimal(&mut r, n as u64);
    r.append(suffix);
    r
}

/// The input bytes as arguments in base sixteen.
pub open spec fn hex_arguments(bytes: Seq<u8>) -> Seq<char>
    decreases bytes.len(),
{
    if bytes.len() == 0 {
        Seq::empty()
    } else {
        hex_arguments(bytes.drop_last()) + seq![' ', '0', 'x'] + hex_byte(bytes.last(), true)
    }
}

/// Position of the first line feed of `s`, or its length.
pub open spec fn first_break(s: Seq<char>) -> int
    decreases s.len(),
{
    if s.len() == 0 || s[0] == '\n' {
        0
    } else {
        1 + first_break(s.skip(1))
    }
}

/// A name as it stands inside double quotes: quotes are escaped, and only the
/// first line counts.
pub open spec fn quoted_name(name: Seq<char>) -> Seq<char> {
    let escaped = replaced(name, "\""@, "\\\""@);
    escaped.take(first_break(escaped))
}

/// The flag that names a direction.
pub open spec fn direction_letter(direction: Direction) -> Seq<char> {
    match direction {
        Direction::Down => "D"@,
        Direction::Left => "L"@,
        Direction::Up => "U"@,
        Direction::Right => "R"@,
    }
}

fn letter_of(direction: Direction) -> (r: &'static str)
    ensures
        r@ == direction_letter(direction),
{
    match direction {
        Direction::Down => "D",
        Direction::Left => "L",
        Direction::Up => "U",
        Direction::Right => "R",
    }
}

/// The command that lists the layout of every window.
pub open spec fn initial_layout_command() -> OutgoingView {
    OutgoingView {
        event: TmuxCommand::InitialLayout,
        cmd:
            "list-windows -F \"#{window_id} #{window_layout} #{window_visible_layout} #{window_flags} #{window_name}\""@,
    }
}

/// The command that kills a window.
pub open spec fn kill_window_command(tab_id: u32) -> OutgoingView {
    OutgoingView {
        event: TmuxCommand::TabClose,
        cmd: "kill-window -t @"@ + decimal(tab_id as nat),
    }
}

/// The command that lists the layout of one window.
pub open spec fn window_layout_command(tab_id: u32) -> OutgoingView {
    OutgoingView {
        event: TmuxCommand::TabNew,
        cmd: "list-windows -f \"#{==:#{window_id},@"@ + decimal(tab_id as nat)
            + "}\" -F \"#{window_id} #{window_layout} #{window_visible_layout} #{window_flags} #{window_name}\""@,
    }
}

/// The command that captures what a pane shows, and its history.
pub open spec fn initial_output_command(pane_id: u32) -> OutgoingView {
    OutgoingView {
        event: TmuxCommand::InitialOutput(pane_id),
        cmd: "capture-pane -J -p -t %"@ + decimal(pane_id as nat) + " -eC -S - -E -"@,
    }
}

/// The command that sends input to a pane, if there is any.
pub open spec fn input_command(pane_id: u32, text: Seq<char>) -> Option<OutgoingView> {
    if text.len() == 0 {
        None
    } else {
        Some(
            OutgoingView {
                event: TmuxCommand::Keypress,
                cmd: "send-keys -t %"@ + decimal(pane_id as nat) + " -H"@ + hex_arguments(
                    encode_utf8(text),
                ),
            },
        )
    }
}

/// The command that shows a paste buffer.
pub open spec fn fetch_command(name: Seq<char>) -> OutgoingView {
    OutgoingView {
        event: TmuxCommand::FetchBuffer,
        cmd: "show-buffer -b \""@ + name + "\""@,
    }
}

/// The command that sends a named key to a pane.
pub open spec fn function_key_command(pane_id: u32, text: Seq<char>) -> OutgoingView {
    OutgoingView {
        event: TmuxCommand::Keypress,
        cmd: "send-keys -t %"@ + decimal(pane_id as nat) + " -- \""@ + text + "\""@,
    }
}

/// The command that selects a window.
pub open spec fn select_tab_command(tab_id: u32) -> OutgoingView {
    OutgoingView {
        event: TmuxCommand::TabSelect(tab_id),
        cmd: "select-window -t @"@ + decimal(tab_id as nat),
    }
}

/// The command that selects a pane.
pub open spec fn select_terminal_command(term_id: u32) -> OutgoingView {
    OutgoingView {
        event: TmuxCommand::PaneSelect(term_id),
        cmd: "select-pane -t %"@ + decimal(term_id as nat),
    }
}

/// The command that renames a window.
pub open spec fn rename_command(tab_id: u32, name: Seq<char>) -> OutgoingView {
    OutgoingView {
        event: TmuxCommand::TabRename(tab_id),
        cmd: "rename-window -t @"@ + decimal(tab_id as nat) + " -- \""@ + quoted_name(name)
            + "\""@,
    }
}

/// The command that moves the border of a pane.
pub open spec fn resize_command(term_id: u32, direction: Direction, amount: u32) -> OutgoingView {
    OutgoingView {
        event: TmuxCommand::PaneResize(term_id),
        cmd: "resize-pane -"@ + direction_letter(direction) + " -t %"@ + decimal(
            term_id as nat,
        ) + " "@ + decimal(amount as nat),
    }
}

/// The command that a key binding stands for, if it is one for Tmux.
pub open spec fn keybinding_command(action: KeyboardAction, pane_id: u32) -> Option<OutgoingView> {
    let id = decimal(pane_id as nat);
    match action {
        KeyboardAction::PaneSplit(horizontal) => Some(
            OutgoingView {
                event: TmuxCommand::PaneSplit(horizontal),
                cmd: (if horizontal {
                    "split-window -v -t %"@
                } else {
                    "split-window -h -t %"@
                }) + id,
            },
        ),
        KeyboardAction::PaneClose => Some(
            OutgoingView {
                event: TmuxCommand::PaneClose(pane_id),
                cmd: "kill-pane -t %"@ + id,
            },
        ),
        KeyboardAction::TabNew => Some(
            OutgoingView {
                event: TmuxCommand::TabNew,
                cmd:
                    "new-window -P -F \"#{window_id} #{window_layout} #{window_visible_layout} ${window_flags} #{window_name}\""@,
            },
        ),
        KeyboardAction::TabClose => Some(
            OutgoingView { event: TmuxCommand::TabClose, cmd: "kill-window"@ },
        ),
        KeyboardAction::MoveFocus(direction) => Some(
            OutgoingView {
                event: TmuxCommand::PaneMoveFocus(direction),
                cmd: "select-pane -"@ + direction_letter(direction),
            },
        ),
        KeyboardAction::ToggleZoom => Some(
            OutgoingView {
                event: TmuxCommand::PaneZoom(pane_id),
                cmd: "resize-pane -Z -t %"@ + id,
            },
        ),
        KeyboardAction::OpenEditorCwd => Some(
            OutgoingView {
                event: TmuxCommand::PaneCurrentPath(pane_id),
                cmd: "list-panes -t %"@ + id + " -F \"path: #{pane_id} #{pane_current_path}\""@,
            },
        ),
        KeyboardAction::ClearScrollback => Some(
            OutgoingView {
                event: TmuxCommand::ClearScrollback(pane_id),
                cmd: "clear-history -t %"@ + id,
            },
        ),
        // Handled by the widgets, not by Tmux
        KeyboardAction::TabRename
        | KeyboardAction::ToggleFullscreen
        | KeyboardAction::CopySelected
        | KeyboardAction::PasteClipboard
        | KeyboardAction::FontScaleIncrease
        | KeyboardAction::FontScaleDecrease
        | KeyboardAction::FontScaleReset => None,
    }
}

/// The connection to a Tmux session.
#[derive(Debug)]
pub struct TmuxAPI {
    window_size: (i32, i32),
    resize_future: bool,
    /// Number of %paste-buffer-changed notifications caused by our own
    /// set_buffer calls; those must not be fetched back into the clipboard
    pending_buffer_echoes: usize,
}

/// Mathematical value of a `TmuxAPI`.
#[verifier::ext_equal]
pub struct ApiView {
    pub window_size: (i32, i32),
    pub resize_future: bool,
    pub echoes: nat,
}

impl View for TmuxAPI {
    type V = ApiView;

    closed spec fn view(&self) -> ApiView {
        ApiView {
            window_size: self.window_size,
            resize_future: self.resize_future,
            echoes: self.pending_buffer_echoes as nat,
        }
    }
}

/// What asking for the size `(cols, rows)` does.
pub open spec fn resized(api: ApiView, cols: i32, rows: i32) -> (ApiView, Option<OutgoingView>) {
    if api.window_size == (cols, rows) {
        (api, None)
    } else {
        (
            ApiView { window_size: (cols, rows), ..api },
            Some(
                OutgoingView {
                    event: TmuxCommand::ChangeSize(cols, rows),
                    cmd: "refresh-client -C "@ + signed_decimal(cols as int) + ","@
                        + signed_decimal(rows as int),
                },
            ),
        )
    }
}

/// What storing `text` in a paste buffer does.
pub open spec fn buffer_set(api: ApiView, text: Seq<char>) -> (ApiView, Option<OutgoingView>) {
    if encode_utf8(text).len() > MAX_SYNC_BYTES {
        (api, None)
    } else {
        (
            ApiView { echoes: api.echoes + 1, ..api },
            Some(
                OutgoingView {
                    event: TmuxCommand::SetBuffer,
                    cmd: "set-buffer -- \""@ + escaped(encode_utf8(text)) + "\""@,
                },
            ),
        )
    }
}

/// What a paste buffer notification does: the state behind it, and whether
/// it is an echo of our own.
pub open spec fn echo_consumed(api: ApiView) -> (ApiView, bool) {
    if api.echoes > 0 {
        (ApiView { echoes: (api.echoes - 1) as nat, ..api }, true)
    } else {
        (api, false)
    }
}

impl TmuxAPI {
    pub fn new() -> (api: TmuxAPI)
        ensures
            api@ == (ApiView { window_size: (0, 0), resize_future: false, echoes: 0 }),
    {
        TmuxAPI { window_size: (0, 0), resize_future: false, pending_buffer_echoes: 0 }
    }

    pub fn get_initial_layout(&self) -> (r: Outgoing)
        ensures
            r@ == initial_layout_command(),
    {
        Outgoing {
            event: TmuxCommand::InitialLayout,
            cmd:
                "list-windows -F \"#{window_id} #{window_layout} #{window_visible_layout} #{window_flags} #{window_name}\"".to_string(),
        }
    }

    /// Kill a Tmux window (the user closed its Tab)
    pub fn kill_window(&self, tab_id: u32) -> (r: Outgoing)
        ensures
            r@ == kill_window_command(tab_id),
    {
        let mut cmd = "kill-window -t @".to_string();
        push_decimal(&mut cmd, tab_id as u64);
        Outgoing { event: TmuxCommand::TabClose, cmd }
    }

    /// Ask for the layout of a single window (e.g. one added by another
    /// client), so a Tab can be created for it
    pub fn get_window_layout(&self, tab_id: u32) -> (r: Outgoing)
        ensures
            r@ == window_layout_command(tab_id),
    {
        Outgoing {
            event: TmuxCommand::TabNew,
            cmd: numbered(
                "list-windows -f \"#{==:#{window_id},@",
                tab_id,
                "}\" -F \"#{window_id} #{window_layout} #{window_visible_layout} #{window_flags} #{window_name}\"",
            ),
        }
    }

    pub fn get_initial_output(&self, pane_id: u32) -> (r: Outgoing)
        ensures
            r@ == initial_output_command(pane_id),
    {
        Outgoing {
            event: TmuxCommand::InitialOutput(pane_id),
            cmd: numbered("capture-pane -J -p -t %", pane_id, " -eC -S - -E -"),
        }
    }

    /// Tell Tmux the size of the client, unless it has not changed.
    pub fn change_size(&mut self, cols: i32, rows: i32) -> (r: Option<Outgoing>)
        ensures
            (final(self)@, outgoing_view(r)) == resized(old(self)@, cols, rows),
    {
        if self.window_size.0 == cols && self.window_size.1 == rows {
            return None;
        }
        self.window_size = (cols, rows);
        let mut cmd = "refresh-client -C ".to_string();
        push_signed_decimal(&mut cmd, cols);
        cmd.append(",");
        push_signed_decimal(&mut cmd, rows);
        Some(Outgoing { event: TmuxCommand::ChangeSize(cols, rows), cmd })
    }

    /// Send raw input bytes (as produced by VTE's `commit` signal) to a pane
    pub fn send_input_bytes(&self, pane_id: u32, text: &str) -> (r: Option<Outgoing>)
        ensures
            outgoing_view(r) == input_command(pane_id, text@),
    {
        if text.is_empty() {
            return None;
        }
        let bytes = text.as_bytes();
        let mut cmd = numbered("send-keys -t %", pane_id, " -H");
        let ghost front = cmd@;
        let mut i: usize = 0;
        assert(bytes@.take(0) =~= Seq::empty());
        assert(front + Seq::<char>::empty() =~= front);
        while i < bytes.len()
            invariant
                i <= bytes@.len(),
                cmd@ == front + hex_arguments(bytes@.take(i as int)),
            decreases bytes@.len() - i,
        {
            let ghost before = cmd@;
            assert(bytes@.take(i + 1).drop_last() =~= bytes@.take(i as int));
            cmd.push(' ');
            cmd.push('0');
            cmd.push('x');
            push_hex_byte(&mut cmd, bytes[i], true);
            assert(cmd@ =~= front + (hex_arguments(bytes@.take(i as int)) + seq![' ', '0', 'x']
                + hex_byte(bytes@[i as int], true)));
            i += 1;
        }
        assert(bytes@.take(i as int) =~= bytes@);
        Some(Outgoing { event: TmuxCommand::Keypress, cmd })
    }

    /// Fetch the content of a Tmux paste buffer (to sync the system clipboard)
    pub fn fetch_buffer(&self, name: &str) -> (r: Outgoing)
        ensures
            r@ == fetch_command(name@),
    {
        let mut cmd = "show-buffer -b \"".to_string();
        cmd.append(name);
        cmd.append("\"");
        Outgoing { event: TmuxCommand::FetchBuffer, cmd }
    }

    /// Store text in a new automatic Tmux paste buffer, making it the most
    /// recent one (what prefix-] and other clients paste). Used to sync the
    /// local selection to Tmux. A huge selection is left alone.
    ///
    /// The %paste-buffer-changed that this triggers is our own echo; it is
    /// counted, so that it is not fetched back into the system clipboard.
    pub fn set_buffer(&mut self, text: &str) -> (r: Option<Outgoing>)
        requires
            old(self)@.echoes < usize::MAX,
        ensures
            (final(self)@, outgoing_view(r)) == buffer_set(old(self)@, text@),
    {
        let length: usize = text.as_bytes().len();
        if length > MAX_SYNC_BYTES {
            return None;
        }
        self.pending_buffer_echoes = self.pending_buffer_echoes + 1;
        let mut cmd = "set-buffer -- \"".to_string();
        let quoted = escape_for_tmux_quotes(text);
        cmd.append(quoted.as_str());
        cmd.append("\"");
        Some(Outgoing { event: TmuxCommand::SetBuffer, cmd })
    }

    /// The number of stored texts whose echo has not arrived yet.
    pub fn pending_echoes(&self) -> (n: usize)
        ensures
            n == self@.echoes,
    {
        self.pending_buffer_echoes
    }

    /// Returns true when a %paste-buffer-changed notification was caused by
    /// our own set_buffer (and consumes that marker)
    pub fn consume_buffer_echo(&mut self) -> (r: bool)
        ensures
            (final(self)@, r) == echo_consumed(old(self)@),
    {
        if self.pending_buffer_echoes > 0 {
            self.pending_buffer_echoes = self.pending_buffer_echoes - 1;
            return true;
        }
        false
    }

    /// Send the key named `text` to a pane.
    pub fn send_function_key(&self, pane_id: u32, text: &str) -> (r: Outgoing)
        ensures
            r@ == function_key_command(pane_id, text@),
    {
        let mut cmd = numbered("send-keys -t %", pane_id, " -- \"");
        cmd.append(text);
        cmd.append("\"");
        Outgoing { event: TmuxCommand::Keypress, cmd }
    }

    /// The command that a key binding stands for; `None` where the widgets
    /// handle it. Copy and paste never get here: the terminal widget handles
    /// them.
    pub fn send_keybinding(&self, action: KeyboardAction, pane_id: u32) -> (r: Option<Outgoing>)
        requires
            action != KeyboardAction::CopySelected,
            action != KeyboardAction::PasteClipboard,
        ensures
            outgoing_view(r) == keybinding_command(action, pane_id),
    {
        let (event, cmd) = match action {
            KeyboardAction::PaneSplit(horizontal) => {
                let mut cmd = if horizontal {
                    "split-window -v -t %".to_string()
                } else {
                    "split-window -h -t %".to_string()
                };
                push_decimal(&mut cmd, pane_id as u64);
                (TmuxCommand::PaneSplit(horizontal), cmd)
            },
            KeyboardAction::PaneClose => {
                let mut cmd = "kill-pane -t %".to_string();
                push_decimal(&mut cmd, pane_id as u64);
                (TmuxCommand::PaneClose(pane_id), cmd)
            },
            KeyboardAction::TabNew => (
                TmuxCommand::TabNew,
                "new-window -P -F \"#{window_id} #{window_layout} #{window_visible_layout} ${window_flags} #{window_name}\"".to_string(),
            ),
            KeyboardAction::TabClose => (TmuxCommand::TabClose, "kill-window".to_string()),
            KeyboardAction::MoveFocus(direction) => {
                let mut cmd = "select-pane -".to_string();
                cmd.append(letter_of(direction));
                (TmuxCommand::PaneMoveFocus(direction), cmd)
            },
            KeyboardAction::ToggleZoom => {
                let mut cmd = "resize-pane -Z -t %".to_string();
                push_decimal(&mut cmd, pane_id as u64);
                (TmuxCommand::PaneZoom(pane_id), cmd)
            },
            KeyboardAction::OpenEditorCwd => (
                TmuxCommand::PaneCurrentPath(pane_id),
                numbered(
                    "list-panes -t %",
                    pane_id,
                    " -F \"path: #{pane_id} #{pane_current_path}\"",
                ),
            ),
            KeyboardAction::ClearScrollback => {
                let mut cmd = "clear-history -t %".to_string();
                push_decimal(&mut cmd, pane_id as u64);
                (TmuxCommand::ClearScrollback(pane_id), cmd)
            },
            KeyboardAction::TabRename
            | KeyboardAction::ToggleFullscreen
            | KeyboardAction::CopySelected
            | KeyboardAction::PasteClipboard
            | KeyboardAction::FontScaleIncrease
            | KeyboardAction::FontScaleDecrease
            | KeyboardAction::FontScaleReset => return None,
        };
        Some(Outgoing { event, cmd })
    }

    pub fn select_tab(&self, tab_id: u32) -> (r: Outgoing)
        ensures
            r@ == select_tab_command(tab_id),
    {
        let mut cmd = "select-window -t @".to_string();
        push_decimal(&mut cmd, tab_id as u64);
        Outgoing { event: TmuxCommand::TabSelect(tab_id), cmd }
    }

    pub fn select_terminal(&self, term_id: u32) -> (r: Outgoing)
        ensures
            r@ == select_terminal_command(term_id),
    {
        let mut cmd = "select-pane -t %".to_string();
        push_decimal(&mut cmd, term_id as u64);
        Outgoing { event: TmuxCommand::PaneSelect(term_id), cmd }
    }

    /// Updates resize_future to `new` value, while returning the old value
    pub fn update_resize_future(&mut self, new: bool) -> (r: bool)
        ensures
            r == old(self)@.resize_future,
            final(self)@ == (ApiView { resize_future: new, ..old(self)@ }),
    {
        let before = self.resize_future;
        self.resize_future = new;
        before
    }

    pub fn rename_tab(&self, tab_id: u32, name: &str) -> (r: Outgoing)
        ensures
            r@ == rename_command(tab_id, name@),
    {
        proof {
            reveal_strlit("\"");
        }
        let escaped_name = replace_all(name, "\"", "\\\"");
        let chars = chars_of(escaped_name.as_str());
        let mut end: usize = 0;
        while end < chars.len() && chars[end] != '\n'
            invariant
                end <= chars@.len(),
                forall|i: int| 0 <= i < end ==> #[trigger] chars@[i] != '\n',
            ensures
                end == chars@.len() || chars@[end as int] == '\n',
            decreases chars@.len() - end,
        {
            end += 1;
        }
        proof {
            lemma_first_break(chars@, end as int);
            assert(chars@.subrange(0, end as int) =~= chars@.take(end as int));
        }
        let mut cmd = numbered("rename-window -t @", tab_id, " -- \"");
        push_chars(&mut cmd, chars.as_slice(), 0, end);
        cmd.append("\"");
        Outgoing { event: TmuxCommand::TabRename(tab_id), cmd }
    }

    pub fn resize_pane(&self, term_id: u32, direction: Direction, amount: u32) -> (r: Outgoing)
        ensures
            r@ == resize_command(term_id, direction, amount),
    {
        let mut cmd = "resize-pane -".to_string();
        cmd.append(letter_of(direction));
        cmd.append(" -t %");
        push_decimal(&mut cmd, term_id as u64);
        cmd.append(" ");
        push_decimal(&mut cmd, amount as u64);
        Outgoing { event: TmuxCommand::PaneResize(term_id), cmd }
    }
}

proof fn lemma_first_break(s: Seq<char>, n: int)
    requires
        0 <= n <= s.len(),
        forall|i: int| 0 <= i < n ==> #[trigger] s[i] != '\n',
        n == s.len() || s[n] == '\n',
    ensures
        first_break(s) == n,
    decreases n,
{
    if n > 0 {
        assert(s[0] != '\n');
        assert forall|i: int| 0 <= i < n - 1 implies #[trigger] s.skip(1)[i] != '\n' by {
            assert(s[i + 1] != '\n');
        }
        lemma_first_break(s.skip(1), n - 1);
    }
}

// ---------------------------------------------------------------------------
// Laws
// ---------------------------------------------------------------------------

proof fn lemma_escaped_front(bytes: Seq<u8>)
    requires
        bytes.len() > 0,
    ensures
        escaped(bytes) == escaped_byte(bytes[0]) + escaped(bytes.skip(1)),
    decreases bytes.len(),
{
    if bytes.len() == 1 {
        assert(bytes.drop_last() =~= Seq::empty());
        assert(bytes.skip(1) =~= Seq::empty());
        assert(escaped(bytes) =~= escaped_byte(bytes[0]) + escaped(bytes.skip(1)));
    } else {
        lemma_escaped_front(bytes.drop_last());
        assert(bytes.drop_last().skip(1) =~= bytes.skip(1).drop_last());
        assert(escaped(bytes) =~= escaped_byte(bytes[0]) + escaped(bytes.skip(1)));
    }
}

/// Escaping loses nothing: resolving the escapes gives the bytes of the text
/// back.
pub proof fn law_escapes_are_resolved(bytes: Seq<u8>)
    ensures
        escapes_ok(encode_utf8(escaped(bytes))),
        unescaped(encode_utf8(escaped(bytes))) == bytes,
    decreases bytes.len(),
{
    if bytes.len() == 0 {
        assert(unescaped(encode_utf8(escaped(bytes))) =~= bytes);
    } else {
        let b = bytes[0];
        let rest = bytes.skip(1);
        law_escapes_are_resolved(rest);
        lemma_escaped_front(bytes);
        lemma_encode_concat(escaped_byte(b), escaped(rest));
        let front = encode_utf8(escaped_byte(b));
        let back = encode_utf8(escaped(rest));
        assert(is_ascii_chars(escaped_byte(b)));
        is_ascii_chars_encode_utf8(escaped_byte(b));
        if is_safe(b) {
            assert(front =~= seq![b]);
            assert((front + back).skip(1) =~= back);
        } else {
            let high = (48 + b / 64) as u8;
            let middle = (48 + b / 8 % 8) as u8;
            let low = (48 + b % 8) as u8;
            assert(escaped_byte(b)[1] as u8 == high);
            assert(escaped_byte(b)[2] as u8 == middle);
            assert(escaped_byte(b)[3] as u8 == low);
            assert(front =~= seq![92u8, high, middle, low]);
            assert(octal(high, middle, low) == b);
            assert((front + back).skip(4) =~= back);
        }
        assert(seq![b] + rest =~= bytes);
    }
}

/// Whether the character has no meaning of its own to Tmux inside double
/// quotes: a safe character, or the backslash that starts an escape.
pub open spec fn is_quote_safe(c: char) -> bool {
    c == '\\' || (c as u32 <= 127 && is_safe(c as u8))
}

/// Escaped text holds nothing that could end a quoted argument or a line, or
/// that Tmux expands.
pub proof fn law_escaped_text_is_safe(bytes: Seq<u8>)
    ensures
        forall|i: int| 0 <= i < escaped(bytes).len() ==> is_quote_safe(#[trigger] escaped(bytes)[i]),
    decreases bytes.len(),
{
    if bytes.len() > 0 {
        let front = escaped(bytes.drop_last());
        let b = bytes.last();
        law_escaped_text_is_safe(bytes.drop_last());
        assert forall|i: int| 0 <= i < escaped(bytes).len() implies is_quote_safe(
            #[trigger] escaped(bytes)[i],
        ) by {
            if i >= front.len() {
                assert(escaped(bytes)[i] == escaped_byte(b)[i - front.len()]);
                assert((48 + b / 64) as u8 == 48 + b / 64);
                assert((48 + b / 8 % 8) as u8 == 48 + b / 8 % 8);
                assert((48 + b % 8) as u8 == 48 + b % 8);
            }
        }
    }
}

/// A name that is sent to Tmux stays on the line of its command.
pub proof fn law_names_are_one_line(name: Seq<char>)
    ensures
        forall|i: int|
            0 <= i < quoted_name(name).len() ==> #[trigger] quoted_name(name)[i] != '\n',
{
    lemma_before_first_break(replaced(name, "\""@, "\\\""@));
}

proof fn lemma_before_first_break(s: Seq<char>)
    ensures
        0 <= first_break(s) <= s.len(),
        forall|i: int| 0 <= i < first_break(s) ==> #[trigger] s[i] != '\n',
    decreases s.len(),
{
    if s.len() > 0 && s[0] != '\n' {
        lemma_before_first_break(s.skip(1));
        assert forall|i: int| 0 <= i < first_break(s) implies #[trigger] s[i] != '\n' by {
            if i > 0 {
                assert(s[i] == s.skip(1)[i - 1]);
            }
        }
    }
}

/// Asking twice for the same size sends it once.
pub proof fn law_same_size_is_sent_once(api: ApiView, cols: i32, rows: i32)
    ensures
        resized(resized(api, cols, rows).0, cols, rows) == (resized(api, cols, rows).0, None::<
            OutgoingView,
        >),
{
}

/// The state behind `n` paste buffer notifications, and whether all of them
/// were echoes of our own.
pub open spec fn echoes_consumed(api: ApiView, n: nat) -> (ApiView, bool)
    decreases n,
{
    if n == 0 {
        (api, true)
    } else {
        let before = echoes_consumed(api, (n - 1) as nat);
        let last = echo_consumed(before.0);
        (last.0, before.1 && last.1)
    }
}

/// Every text that was stored accounts for exactly one notification: as many
/// notifications as there are stored texts are taken for echoes, and the
/// next one is not.
pub proof fn law_each_stored_text_has_one_echo(api: ApiView, n: nat)
    requires
        n <= api.echoes,
    ensures
        echoes_consumed(api, n) == (ApiView { echoes: (api.echoes - n) as nat, ..api }, true),
        n == api.echoes ==> !echo_consumed(echoes_consumed(api, n).0).1,
    decreases n,
{
    if n > 0 {
        law_each_stored_text_has_one_echo(api, (n - 1) as nat);
    }
}

/// Moving the focus names the direction that was asked for, and so does the
/// event that its reply is read by.
pub proof fn law_focus_moves_the_asked_way(pane_id: u32)
    ensures
        keybinding_command(KeyboardAction::MoveFocus(Direction::Left), pane_id) == Some(
            OutgoingView {
                event: TmuxCommand::PaneMoveFocus(Direction::Left),
                cmd: "select-pane -L"@,
            },
        ),
        keybinding_command(KeyboardAction::MoveFocus(Direction::Right), pane_id) == Some(
            OutgoingView {
                event: TmuxCommand::PaneMoveFocus(Direction::Right),
                cmd: "select-pane -R"@,
            },
        ),
        keybinding_command(KeyboardAction::MoveFocus(Direction::Up), pane_id) == Some(
            OutgoingView {
                event: TmuxCommand::PaneMoveFocus(Direction::Up),
                cmd: "select-pane -U"@,
            },
        ),
        keybinding_command(KeyboardAction::MoveFocus(Direction::Down), pane_id) == Some(
            OutgoingView {
                event: TmuxCommand::PaneMoveFocus(Direction::Down),
                cmd: "select-pane -D"@,
            },
        ),
{
    reveal_strlit("select-pane -");
    reveal_strlit("select-pane -L");
    reveal_strlit("select-pane -R");
    reveal_strlit("select-pane -U");
    reveal_strlit("select-pane -D");
    reveal_strlit("L");
    reveal_strlit("R");
    reveal_strlit("U");
    reveal_strlit("D");
    assert("select-pane -"@ + "L"@ =~= "select-pane -L"@);
    assert("select-pane -"@ + "R"@ =~= "select-pane -R"@);
    assert("select-pane -"@ + "U"@ =~= "select-pane -U"@);
    assert("select-pane -"@ + "D"@ =~= "select-pane -D"@);
}

/// Whether a command reads `text` and then the number `id`, and is answered as
/// `event`.
pub open spec fn names(
    outgoing: OutgoingView,
    event: TmuxCommand,
    text: Seq<char>,
    id: u32,
) -> bool {
    &&& outgoing.event == event
    &&& outgoing.cmd.len() > text.len()
    &&& outgoing.cmd.take(text.len() as int) == text
    &&& value_in_base(outgoing.cmd.skip(text.len() as int), 10) == id
}

proof fn lemma_names(outgoing: OutgoingView, event: TmuxCommand, text: Seq<char>, id: u32)
    requires
        outgoing.event == event,
        outgoing.cmd == text + decimal(id as nat),
    ensures
        names(outgoing, event, text, id),
{
    law_decimal_is_read_back(id as nat);
    assert(outgoing.cmd.take(text.len() as int) =~= text);
    assert(outgoing.cmd.skip(text.len() as int) =~= decimal(id as nat));
}

/// Splitting below and beside, closing, zooming and clearing a pane are done to
/// the pane that the key was pressed in: its number is read at the end of the
/// command. Tabs are opened and closed without one.
pub proof fn law_key_bindings_act_on_their_pane(pane_id: u32)
    ensures
        ({
            let below = keybinding_command(KeyboardAction::PaneSplit(true), pane_id);
            let beside = keybinding_command(KeyboardAction::PaneSplit(false), pane_id);
            let close = keybinding_command(KeyboardAction::PaneClose, pane_id);
            let zoom = keybinding_command(KeyboardAction::ToggleZoom, pane_id);
            let clear = keybinding_command(KeyboardAction::ClearScrollback, pane_id);
            &&& below matches Some(c) && names(
                c,
                TmuxCommand::PaneSplit(true),
                "split-window -v -t %"@,
                pane_id,
            )
            &&& beside matches Some(c) && names(
                c,
                TmuxCommand::PaneSplit(false),
                "split-window -h -t %"@,
                pane_id,
            )
            &&& close matches Some(c) && names(
                c,
                TmuxCommand::PaneClose(pane_id),
                "kill-pane -t %"@,
                pane_id,
            )
            &&& zoom matches Some(c) && names(
                c,
                TmuxCommand::PaneZoom(pane_id),
                "resize-pane -Z -t %"@,
                pane_id,
            )
            &&& clear matches Some(c) && names(
                c,
                TmuxCommand::ClearScrollback(pane_id),
                "clear-history -t %"@,
                pane_id,
            )
        }),
        keybinding_command(KeyboardAction::TabClose, pane_id) == Some(
            OutgoingView { event: TmuxCommand::TabClose, cmd: "kill-window"@ },
        ),
        keybinding_command(KeyboardAction::TabNew, pane_id) == Some(
            OutgoingView {
                event: TmuxCommand::TabNew,
                cmd:
                    "new-window -P -F \"#{window_id} #{window_layout} #{window_visible_layout} ${window_flags} #{window_name}\""@,
            },
        ),
        keybinding_command(KeyboardAction::OpenEditorCwd, pane_id) == Some(
            OutgoingView {
                event: TmuxCommand::PaneCurrentPath(pane_id),
                cmd: "list-panes -t %"@ + decimal(pane_id as nat)
                    + " -F \"path: #{pane_id} #{pane_current_path}\""@,
            },
        ),
{
    let below = keybinding_command(KeyboardAction::PaneSplit(true), pane_id)->Some_0;
    let beside = keybinding_command(KeyboardAction::PaneSplit(false), pane_id)->Some_0;
    let close = keybinding_command(KeyboardAction::PaneClose, pane_id)->Some_0;
    let zoom = keybinding_command(KeyboardAction::ToggleZoom, pane_id)->Some_0;
    let clear = keybinding_command(KeyboardAction::ClearScrollback, pane_id)->Some_0;
    lemma_names(below, TmuxCommand::PaneSplit(true), "split-window -v -t %"@, pane_id);
    lemma_names(beside, TmuxCommand::PaneSplit(false), "split-window -h -t %"@, pane_id);
    lemma_names(close, TmuxCommand::PaneClose(pane_id), "kill-pane -t %"@, pane_id);
    lemma_names(zoom, TmuxCommand::PaneZoom(pane_id), "resize-pane -Z -t %"@, pane_id);
    lemma_names(clear, TmuxCommand::ClearScrollback(pane_id), "clear-history -t %"@, pane_id);
}

/// Tmux is asked for what the widgets cannot do themselves, and for nothing
/// else: a key binding has a command exactly where it is forwarded.
pub proof fn law_forwarded_keys_have_a_command(action: KeyboardAction, pane_id: u32)
    ensures
        keybinding_command(action, pane_id) is Some <==> tmux_route(action) is Forward,
{
}

/// Selecting and killing name the window or the pane that is meant.
pub proof fn law_commands_act_on_their_target(id: u32)
    ensures
        names(kill_window_command(id), TmuxCommand::TabClose, "kill-window -t @"@, id),
        names(select_tab_command(id), TmuxCommand::TabSelect(id), "select-window -t @"@, id),
        names(select_terminal_command(id), TmuxCommand::PaneSelect(id), "select-pane -t %"@, id),
        initial_output_command(id).event == TmuxCommand::InitialOutput(id),
        initial_output_command(id).cmd == "capture-pane -J -p -t %"@ + decimal(id as nat)
            + " -eC -S - -E -"@,
        window_layout_command(id).event == TmuxCommand::TabNew,
        window_layout_command(id).cmd == "list-windows -f \"#{==:#{window_id},@"@ + decimal(
            id as nat,
        )
            + "}\" -F \"#{window_id} #{window_layout} #{window_visible_layout} #{window_flags} #{window_name}\""@,
        initial_layout_command() == (OutgoingView {
            event: TmuxCommand::InitialLayout,
            cmd:
                "list-windows -F \"#{window_id} #{window_layout} #{window_visible_layout} #{window_flags} #{window_name}\""@,
        }),
{
    lemma_names(kill_window_command(id), TmuxCommand::TabClose, "kill-window -t @"@, id);
    lemma_names(select_tab_command(id), TmuxCommand::TabSelect(id), "select-window -t @"@, id);
    lemma_names(
        select_terminal_command(id),
        TmuxCommand::PaneSelect(id),
        "select-pane -t %"@,
        id,
    );
}

/// The border of a pane moves in the asked direction, by the asked amount.
pub proof fn law_borders_move_the_asked_way(term_id: u32, amount: u32)
    ensures
        ({
            let end = decimal(term_id as nat) + " "@ + decimal(amount as nat);
            &&& resize_command(term_id, Direction::Left, amount).cmd == "resize-pane -L -t %"@ + end
            &&& resize_command(term_id, Direction::Right, amount).cmd == "resize-pane -R -t %"@
                + end
            &&& resize_command(term_id, Direction::Up, amount).cmd == "resize-pane -U -t %"@ + end
            &&& resize_command(term_id, Direction::Down, amount).cmd == "resize-pane -D -t %"@ + end
        }),
        forall|direction: Direction|
            (#[trigger] resize_command(term_id, direction, amount)).event
                == TmuxCommand::PaneResize(term_id),
{
    reveal_strlit("resize-pane -");
    reveal_strlit("resize-pane -L -t %");
    reveal_strlit("resize-pane -R -t %");
    reveal_strlit("resize-pane -U -t %");
    reveal_strlit("resize-pane -D -t %");
    reveal_strlit("L");
    reveal_strlit("R");
    reveal_strlit("U");
    reveal_strlit("D");
    reveal_strlit(" -t %");
    let id = decimal(term_id as nat);
    let n = decimal(amount as nat);
    let end = id + " "@ + n;
    assert("resize-pane -"@ + "L"@ + " -t %"@ =~= "resize-pane -L -t %"@);
    assert("resize-pane -"@ + "R"@ + " -t %"@ =~= "resize-pane -R -t %"@);
    assert("resize-pane -"@ + "U"@ + " -t %"@ =~= "resize-pane -U -t %"@);
    assert("resize-pane -"@ + "D"@ + " -t %"@ =~= "resize-pane -D -t %"@);
    assert("resize-pane -L -t %"@ + id + " "@ + n =~= "resize-pane -L -t %"@ + end);
    assert("resize-pane -R -t %"@ + id + " "@ + n =~= "resize-pane -R -t %"@ + end);
    assert("resize-pane -U -t %"@ + id + " "@ + n =~= "resize-pane -U -t %"@ + end);
    assert("resize-pane -D -t %"@ + id + " "@ + n =~= "resize-pane -D -t %"@ + end);
}

proof fn lemma_hex_argument(bytes: Seq<u8>, i: int)
    requires
        0 <= i < bytes.len(),
    ensures
        hex_arguments(bytes).len() == 5 * bytes.len(),
        hex_arguments(bytes).subrange(5 * i, 5 * i + 5) == seq![' ', '0', 'x'] + hex_byte(
            bytes[i],
            true,
        ),
    decreases bytes.len(),
{
    let front = bytes.drop_last();
    let all = hex_arguments(bytes);
    assert(hex_byte(bytes.last(), true).len() == 2);
    if front.len() > 0 {
        lemma_hex_argument(front, if i < front.len() {
            i
        } else {
            0
        });
    } else {
        assert(front =~= Seq::empty());
    }
    if i < front.len() {
        assert(all.subrange(5 * i, 5 * i + 5) =~= hex_arguments(front).subrange(5 * i, 5 * i + 5));
    } else {
        assert(all.subrange(5 * i, 5 * i + 5) =~= seq![' ', '0', 'x'] + hex_byte(bytes[i], true));
    }
}

/// Whether the argument that stands at `at` is the byte `b` in base sixteen.
pub open spec fn hex_argument_at(cmd: Seq<char>, at: int, b: u8) -> bool {
    &&& 0 <= at
    &&& at + 5 <= cmd.len()
    &&& cmd[at] == ' '
    &&& cmd[at + 1] == '0'
    &&& cmd[at + 2] == 'x'
    &&& value_in_base(cmd.subrange(at + 3, at + 5), 16) == b
}

/// Typed text reaches its pane byte for byte: every byte of it is an argument
/// of its own, which is read back as that byte, in order, and nothing else is
/// sent. No text, no command.
pub proof fn law_typed_text_is_sent_byte_for_byte(pane_id: u32, text: Seq<char>)
    ensures
        text.len() == 0 ==> input_command(pane_id, text) is None,
        text.len() > 0 ==> {
            let front = "send-keys -t %"@ + decimal(pane_id as nat) + " -H"@;
            let bytes = encode_utf8(text);
            let sent = input_command(pane_id, text);
            &&& sent is Some
            &&& sent->Some_0.event == TmuxCommand::Keypress
            &&& sent->Some_0.cmd.len() == front.len() + 5 * bytes.len()
            &&& sent->Some_0.cmd.take(front.len() as int) == front
            &&& forall|i: int|
                0 <= i < bytes.len() ==> hex_argument_at(
                    sent->Some_0.cmd,
                    front.len() + 5 * i,
                    #[trigger] bytes[i],
                )
        },
{
    if text.len() > 0 {
        let front = "send-keys -t %"@ + decimal(pane_id as nat) + " -H"@;
        let bytes = encode_utf8(text);
        let cmd = input_command(pane_id, text)->Some_0.cmd;
        let arguments = hex_arguments(bytes);
        assert(cmd =~= front + arguments);
        assert(cmd.take(front.len() as int) =~= front);
        if bytes.len() > 0 {
            lemma_hex_argument(bytes, 0);
        } else {
            assert(arguments.len() == 0);
        }
        assert forall|i: int| 0 <= i < bytes.len() implies hex_argument_at(
            cmd,
            front.len() + 5 * i,
            #[trigger] bytes[i],
        ) by {
            lemma_hex_argument(bytes, i);
            let at = front.len() + 5 * i;
            let one = arguments.subrange(5 * i, 5 * i + 5);
            law_hex_bytes_are_read_back(bytes[i], true);
            assert(cmd[at] == one[0] && cmd[at + 1] == one[1] && cmd[at + 2] == one[2]);
            assert(cmd.subrange(at + 3, at + 5) =~= hex_byte(bytes[i], true)) by {
                assert(cmd[at + 3] == one[3] && cmd[at + 4] == one[4]);
            }
        }
    }
}

/// A selection is stored as it is: what stands between the quotes of the
/// command is resolved to the bytes of the text. It is stored where it has at
/// most 262144 bytes, and not at all otherwise.
pub proof fn law_selections_are_stored_unchanged(api: ApiView, text: Seq<char>)
    ensures
        encode_utf8(text).len() > 262144 ==> buffer_set(api, text) == (api, None::<OutgoingView>),
        encode_utf8(text).len() <= 262144 ==> {
            let (after, sent) = buffer_set(api, text);
            &&& after == (ApiView { echoes: api.echoes + 1, ..api })
            &&& sent is Some
            &&& sent->Some_0.event == TmuxCommand::SetBuffer
            &&& exists|quoted: Seq<char>|
                {
                    &&& sent->Some_0.cmd == "set-buffer -- \""@ + quoted + "\""@
                    &&& unescaped(#[trigger] encode_utf8(quoted)) == encode_utf8(text)
                }
        },
{
    let quoted = escaped(encode_utf8(text));
    law_escapes_are_resolved(encode_utf8(text));
    let found = encode_utf8(quoted);
    assert(unescaped(found) == encode_utf8(text));
}

/// Escaped text is made of letters, digits, backslashes and a few signs
/// without any meaning to Tmux: it holds no quote, no line break, no other
/// control character, nothing that is not ASCII, and neither a `$`, a `#`, a
/// `~`, a `;` nor a brace.
pub proof fn law_escaped_text_ends_no_quote(bytes: Seq<u8>, i: int)
    requires
        0 <= i < escaped(bytes).len(),
    ensures
        ({
            let c = escaped(bytes)[i];
            ||| 'a' <= c <= 'z'
            ||| 'A' <= c <= 'Z'
            ||| '0' <= c <= '9'
            ||| c == '\\' || c == ' ' || c == ',' || c == '.' || c == '_' || c == '-'
            ||| c == '/' || c == ':' || c == '=' || c == '+' || c == '@'
        }),
    decreases bytes.len(),
{
    let front = escaped(bytes.drop_last());
    let b = bytes.last();
    if i < front.len() {
        law_escaped_text_ends_no_quote(bytes.drop_last(), i);
    } else {
        assert(escaped(bytes)[i] == escaped_byte(b)[i - front.len()]);
        assert((b as char) as int == b as int);
        assert(((48 + b / 64) as char) as int == 48 + b / 64);
        assert(((48 + b / 8 % 8) as char) as int == 48 + b / 8 % 8);
        assert(((48 + b % 8) as char) as int == 48 + b % 8);
    }
}

/// Letters and digits are not escaped.
pub proof fn law_words_are_not_escaped(text: Seq<char>)
    requires
        forall|i: int|
            0 <= i < text.len() ==> {
                let c = #[trigger] text[i];
                'a' <= c <= 'z' || 'A' <= c <= 'Z' || '0' <= c <= '9'
            },
    ensures
        escaped(encode_utf8(text)) == text,
    decreases text.len(),
{
    assert(is_ascii_chars(text));
    is_ascii_chars_encode_utf8(text);
    let bytes = encode_utf8(text);
    if text.len() == 0 {
        assert(escaped(bytes) =~= text);
    } else {
        let front = text.drop_last();
        assert(is_ascii_chars(front));
        is_ascii_chars_encode_utf8(front);
        assert(bytes.drop_last() =~= encode_utf8(front));
        assert forall|i: int| 0 <= i < front.len() implies ({
            let c = #[trigger] front[i];
            'a' <= c <= 'z' || 'A' <= c <= 'Z' || '0' <= c <= '9'
        }) by {
            assert(front[i] == text[i]);
        }
        law_words_are_not_escaped(front);
        assert(bytes.last() == text[text.len() - 1] as u8);
        assert(escaped(bytes) =~= text);
    }
}

/// A size is told in columns and rows, in this order, and is then the known
/// one.
pub proof fn law_sizes_are_told(api: ApiView, cols: i32, rows: i32)
    ensures
        resized(api, cols, rows).0.window_size == (cols, rows),
        resized(api, cols, rows).0.echoes == api.echoes,
        api.window_size == (cols, rows) <==> resized(api, cols, rows).1 is None,
        resized(api, cols, rows).1 matches Some(sent) ==> {
            &&& sent.event == TmuxCommand::ChangeSize(cols, rows)
            &&& sent.cmd == "refresh-client -C "@ + signed_decimal(cols as int) + ","@
                + signed_decimal(rows as int)
        },
{
}

/// A quote in a name is escaped, whatever else the name holds, and a name
/// ends at its first line break; any other name is sent as it is.
pub proof fn law_names_are_quoted(a: Seq<char>, b: Seq<char>)
    requires
        !a.contains('"'),
        !a.contains('\n'),
    ensures
        quoted_name(a) == a,
        quoted_name(a + seq!['"'] + b) == a + seq!['\\', '"'] + quoted_name(b),
        quoted_name(a + seq!['\n'] + b) == a,
{
    reveal_strlit("\"");
    reveal_strlit("\\\"");
    let quote = "\""@;
    let with = "\\\""@;
    assert(quote =~= seq!['"']);
    assert(with =~= seq!['\\', '"']);
    if contains_text(a, quote) {
        let i = choose|i: int| #[trigger] occurs_at(a, quote, i);
        assert(a.subrange(i, i + 1)[0] == '"');
        assert(a[i] == '"');
    }
    law_other_text_is_not_replaced(a, quote, with);
    assert forall|i: int| 0 <= i < a.len() implies #[trigger] a[i] != '\n' by {
        assert(a.contains(a[i]));
    }
    lemma_first_break(a, a.len() as int);
    assert(a.take(a.len() as int) =~= a);
    // A quote
    lemma_replaced_concat(a, seq!['"'], '"', with);
    lemma_replaced_concat(a + seq!['"'], b, '"', with);
    lemma_replaced_one('"', '"', with);
    let rest = replaced(b, quote, with);
    let front = a + with;
    let all = replaced(a + seq!['"'] + b, quote, with);
    assert(all == front + rest);
    lemma_before_first_break(rest);
    let n = first_break(rest);
    lemma_at_first_break(rest);
    assert forall|i: int| 0 <= i < front.len() + n implies #[trigger] all[i] != '\n' by {
        if i < a.len() {
            assert(all[i] == a[i]);
        } else if i < front.len() {
            assert(all[i] == with[i - a.len()]);
        } else {
            assert(all[i] == rest[i - front.len()]);
        }
    }
    lemma_first_break(all, front.len() + n);
    assert(all.take(front.len() + n) =~= front + rest.take(n));
    // A line break
    lemma_replaced_concat(a, seq!['\n'], '"', with);
    lemma_replaced_concat(a + seq!['\n'], b, '"', with);
    lemma_replaced_one('\n', '"', with);
    let broken = replaced(a + seq!['\n'] + b, quote, with);
    assert(broken == a + seq!['\n'] + rest);
    assert forall|i: int| 0 <= i < a.len() implies #[trigger] broken[i] != '\n' by {
        assert(broken[i] == a[i]);
    }
    lemma_first_break(broken, a.len() as int);
    assert(broken.take(a.len() as int) =~= a);
}

proof fn lemma_at_first_break(s: Seq<char>)
    ensures
        first_break(s) < s.len() ==> s[first_break(s)] == '\n',
    decreases s.len(),
{
    if s.len() > 0 && s[0] != '\n' {
        lemma_at_first_break(s.skip(1));
        lemma_before_first_break(s.skip(1));
    }
}

/// The name of a window, a buffer or a key stands between the quotes of its
/// command.
pub proof fn law_names_stand_in_their_command(id: u32, text: Seq<char>)
    ensures
        rename_command(id, text).event == TmuxCommand::TabRename(id),
        rename_command(id, text).cmd == "rename-window -t @"@ + decimal(id as nat) + " -- \""@
            + quoted_name(text) + "\""@,
        fetch_command(text).event == TmuxCommand::FetchBuffer,
        fetch_command(text).cmd == "show-buffer -b \""@ + text + "\""@,
        function_key_command(id, text).event == TmuxCommand::Keypress,
        function_key_command(id, text).cmd == "send-keys -t %"@ + decimal(id as nat) + " -- \""@
            + text + "\""@,
{
}

} // verus!
