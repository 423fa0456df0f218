//! Reading and parsing control-mode output.

use std::io::{Cursor, Read};

use async_channel::{Receiver, Sender};
use ivyterm::helpers::TmuxError;
use ivyterm::tmux_api::reader::{
    before_read, run_tmux_reader, sends_exit_on_stop, ReaderAction, ReaderEvent, ReaderStop,
};
use ivyterm::tmux_api::receive::{
    buffer_starts_with, parse_escaped_output, parse_lines, parse_utf8, read_first_u32,
    tmux_parse_line, try_parse_line, DataStep,
};
use ivyterm::tmux_api::ring::{
    grow_ring, next_capacity, INITIAL_RING_CAPACITY, MAX_RING_CAPACITY,
};
use ivyterm::tmux_api::{ParserEffect, TmuxCommand, TmuxEvent, TmuxParserState};
use vmap::io::{Ring, SeqRead, SeqWrite};

fn test_state() -> (TmuxParserState, Sender<TmuxEvent>, Receiver<TmuxEvent>) {
    let (event_sender, event_receiver) = async_channel::unbounded();
    let mut state = TmuxParserState::new();
    // Start past the preamble skip and feed notifications directly
    state.preamble_done = true;
    (state, event_sender, event_receiver)
}

fn drain_events(receiver: &Receiver<TmuxEvent>) -> Vec<TmuxEvent> {
    let mut events = Vec::new();
    while let Ok(event) = receiver.try_recv() {
        events.push(event);
    }
    events
}

fn deliver(effects: Vec<ParserEffect>, sender: &Sender<TmuxEvent>) -> bool {
    for effect in effects {
        if let ParserEffect::Send(event) = effect {
            if sender.send_blocking(event).is_err() {
                return false;
            }
        }
    }
    true
}

fn run_reader<T: Read>(
    stream: &mut T,
    state: &mut TmuxParserState,
    sender: &Sender<TmuxEvent>,
) -> ReaderStop {
    let mut ring = Ring::new(INITIAL_RING_CAPACITY).unwrap();
    let mut action = before_read(&mut ring);
    loop {
        let event = match action {
            ReaderAction::Read => {
                let len = ring.write_len();
                match stream.read(ring.as_write_slice(len)) {
                    Ok(n) => ReaderEvent::Bytes(n),
                    Err(err) if err.kind() == std::io::ErrorKind::Interrupted => {
                        ReaderEvent::Interrupted
                    }
                    Err(_) => ReaderEvent::Failed,
                }
            }
            ReaderAction::TakeCommand => ReaderEvent::Command(TmuxCommand::Init),
            ReaderAction::RejectLine => panic!("malformed line"),
            ReaderAction::Stop(stop) => return stop,
        };
        let mut effects = Vec::new();
        action = run_tmux_reader(state, &mut ring, &mut effects, event);
        if !deliver(effects, sender) {
            return ReaderStop::ParserStop(TmuxError::EventChannelClosed);
        }
    }
}

fn reader_thread_main<T: Read>(
    stream: &mut T,
    mut state: TmuxParserState,
    sender: &Sender<TmuxEvent>,
) {
    let stop = run_reader(stream, &mut state, sender);
    if sends_exit_on_stop(stop) {
        let _ = sender.send_blocking(TmuxEvent::Exit);
    }
}

/// When tmux/ssh dies without %exit (EOF on stdout), the reader must deliver
/// TmuxEvent::Exit and stop.
#[test]
fn eof_without_exit_notifies_window_and_stops() {
    let (state, sender, events) = test_state();
    let mut stream = Cursor::new(b"%output %1 hello\n".to_vec());

    reader_thread_main(&mut stream, state, &sender);

    let events = drain_events(&events);
    assert_eq!(events.len(), 2, "expected Output + Exit");
    assert!(
        matches!(&events[0], TmuxEvent::Output(1, output, false) if output == b"hello"),
        "first event should be the parsed %output"
    );
    assert!(
        matches!(events[1], TmuxEvent::Exit),
        "EOF must be turned into an Exit event"
    );
}

/// A clean %exit must produce exactly one Exit event
#[test]
fn clean_exit_sends_exactly_one_exit_event() {
    let (state, sender, events) = test_state();
    let mut stream = Cursor::new(b"%exit\n".to_vec());

    reader_thread_main(&mut stream, state, &sender);

    let events = drain_events(&events);
    let exit_count = events
        .iter()
        .filter(|event| matches!(event, TmuxEvent::Exit))
        .count();
    assert_eq!(exit_count, 1);
}

/// A read error (e.g. broken pipe mid-stream) must also end with an
/// Exit event instead of leaving the window attached to a dead session
#[test]
fn read_error_notifies_window_and_stops() {
    struct FailingReader {
        data: Vec<u8>,
        position: usize,
    }
    impl Read for FailingReader {
        fn read(&mut self, buf: &mut [u8]) -> std::io::Result<usize> {
            if self.position < self.data.len() {
                let n = buf.len().min(self.data.len() - self.position);
                buf[..n].copy_from_slice(&self.data[self.position..self.position + n]);
                self.position += n;
                Ok(n)
            } else {
                Err(std::io::Error::new(
                    std::io::ErrorKind::ConnectionReset,
                    "connection reset",
                ))
            }
        }
    }

    let (state, sender, events) = test_state();
    let mut stream = FailingReader {
        data: b"%output %1 hi\n".to_vec(),
        position: 0,
    };

    reader_thread_main(&mut stream, state, &sender);

    let events = drain_events(&events);
    assert!(matches!(&events[0], TmuxEvent::Output(1, output, false) if output == b"hi"));
    assert!(matches!(events.last(), Some(TmuxEvent::Exit)));
}

/// The reader must not panic when the window is gone (event channel
/// closed) while output is still arriving
#[test]
fn closed_event_channel_stops_reader_without_panic() {
    let (state, sender, events) = test_state();
    drop(events);
    let mut stream = Cursor::new(b"%output %1 hi\n%output %1 again\n".to_vec());

    reader_thread_main(&mut stream, state, &sender);
}

/// A single line larger than the ring buffer makes it grow, and the line
/// survives intact.
#[test]
fn line_exceeding_ring_capacity_grows_buffer() {
    // Spans multiple growth cycles: 16 KiB -> 32 KiB -> 64 KiB -> 128 KiB
    let payload = vec![b'a'; 100_000];
    let mut data = b"%output %1 ".to_vec();
    data.extend_from_slice(&payload);
    data.push(b'\n');

    let (state, sender, events) = test_state();
    let mut stream = Cursor::new(data);

    reader_thread_main(&mut stream, state, &sender);

    let events = drain_events(&events);
    assert_eq!(events.len(), 2, "expected Output + Exit");
    assert!(
        matches!(&events[0], TmuxEvent::Output(1, output, false) if *output == payload),
        "oversized %output line must be parsed losslessly after the buffer grows"
    );
    assert!(matches!(events[1], TmuxEvent::Exit));
}

/// Growth boundary: a line that fills the ring to the byte before the
/// newline arrives
#[test]
fn line_exactly_at_ring_capacity_is_parsed() {
    // vmap rounds INITIAL_RING_CAPACITY up to the page size multiple
    let ring_capacity = Ring::new(INITIAL_RING_CAPACITY).unwrap().write_len();
    let prefix = b"%output %1 ";
    let payload = vec![b'b'; ring_capacity - prefix.len()];
    let mut data = prefix.to_vec();
    data.extend_from_slice(&payload);
    data.push(b'\n');

    let (state, sender, events) = test_state();
    let mut stream = Cursor::new(data);

    reader_thread_main(&mut stream, state, &sender);

    let events = drain_events(&events);
    assert!(
        matches!(&events[0], TmuxEvent::Output(1, output, false) if *output == payload)
    );
    assert!(matches!(events.last(), Some(TmuxEvent::Exit)));
}

/// grow_ring preserves unread data and respects the capacity limit
#[test]
fn grow_ring_preserves_content_and_respects_limit() {
    let mut ring = Ring::new(INITIAL_RING_CAPACITY).unwrap();
    let capacity = ring.write_len();

    // Fill the ring completely
    let content: Vec<u8> = (0..capacity).map(|i| (i % 251) as u8).collect();
    ring.as_write_slice(capacity).copy_from_slice(&content);
    ring.feed(capacity);
    assert_eq!(ring.write_len(), 0);

    // Growing beyond the limit must fail (and not touch the ring)
    assert!(grow_ring(&mut ring, capacity).is_err());
    assert_eq!(ring.read_len(), capacity);

    // Growing within the limit must preserve all unread bytes
    assert!(grow_ring(&mut ring, MAX_RING_CAPACITY).is_ok());
    assert!(ring.write_len() > 0, "grown ring must have free space");
    assert_eq!(ring.read_len(), capacity);
    assert_eq!(ring.as_read_slice(capacity), &content[..]);
}

#[test]
fn capacity_doubles_within_its_limits() {
    assert_eq!(next_capacity(0, MAX_RING_CAPACITY), Some(INITIAL_RING_CAPACITY));
    assert_eq!(next_capacity(16_384, MAX_RING_CAPACITY), Some(32_768));
    assert_eq!(next_capacity(MAX_RING_CAPACITY / 2, MAX_RING_CAPACITY), Some(MAX_RING_CAPACITY));
    assert_eq!(next_capacity(MAX_RING_CAPACITY / 2 + 1, MAX_RING_CAPACITY), None);
    assert_eq!(next_capacity(1, 15_999), None);
}

#[test]
fn stops_owe_an_exit_event_unless_delivered() {
    assert!(sends_exit_on_stop(ReaderStop::Eof));
    assert!(sends_exit_on_stop(ReaderStop::ReadFailed));
    assert!(sends_exit_on_stop(ReaderStop::BufferOverflow));
    assert!(sends_exit_on_stop(ReaderStop::ParserStop(TmuxError::ErrorParsingUTF8)));
    assert!(!sends_exit_on_stop(ReaderStop::ParserStop(TmuxError::ExitEventReceived)));
    assert!(!sends_exit_on_stop(ReaderStop::ParserStop(TmuxError::EventChannelClosed)));
}

#[test]
fn interrupted_reads_are_tried_again() {
    let mut state = TmuxParserState::new();
    let mut ring = Ring::new(INITIAL_RING_CAPACITY).unwrap();
    let mut effects = Vec::new();
    assert_eq!(
        run_tmux_reader(&mut state, &mut ring, &mut effects, ReaderEvent::Interrupted),
        ReaderAction::Read
    );
    assert!(effects.is_empty());
}

// ---------------------------------------------------------------------------
// Lines
// ---------------------------------------------------------------------------

fn events_of(state: &mut TmuxParserState, lines: &[&str]) -> Vec<TmuxEvent> {
    let mut effects = Vec::new();
    for line in lines {
        assert_eq!(tmux_parse_line(state, line.as_bytes(), &mut effects), Ok(line.len()));
    }
    effects
        .into_iter()
        .map(|effect| match effect {
            ParserEffect::Send(event) => event,
            other => panic!("unexpected effect {:?}", other),
        })
        .collect()
}

fn attached() -> TmuxParserState {
    let mut state = TmuxParserState::new();
    state.preamble_done = true;
    state
}

fn answering(command: TmuxCommand) -> TmuxParserState {
    let mut state = attached();
    assert!(events_of(&mut state, &["%begin 1 2 0"]).is_empty());
    assert!(state.awaiting_command);
    state.begin_command(command);
    state
}

#[test]
fn numbers_are_read_up_to_the_first_other_byte() {
    assert_eq!(read_first_u32(b"12 rest"), (12, 3));
    assert_eq!(read_first_u32(b"x"), (0, 1));
    assert_eq!(read_first_u32(b""), (0, 1));
    assert_eq!(read_first_u32(b"4294967295"), (u32::MAX, 11));
}

#[test]
fn escaped_output_is_resolved() {
    assert_eq!(parse_escaped_output(b"a\\033[0m\\\\b", false, 0), b"a\x1b[0m\\b");
    assert_eq!(parse_escaped_output(b"x", true, 2), b"\r\n\r\n\r\nx");
    assert_eq!(parse_escaped_output(b"\\343\\201\\202", false, 0), "あ".as_bytes());
}

#[test]
fn prefixes_and_utf8_are_checked() {
    assert!(buffer_starts_with(b"%output %1", "%output"));
    assert!(!buffer_starts_with(b"%out", "%output"));
    assert!(!buffer_starts_with(b"%autput", "%output"));
    assert_eq!(parse_utf8("é".as_bytes()), Ok("é"));
    assert_eq!(parse_utf8(b"\xff"), Err(TmuxError::ErrorParsingUTF8));
}

#[test]
fn notifications_become_events() {
    let mut state = attached();
    let events = events_of(
        &mut state,
        &[
            "%window-pane-changed @0 %10",
            "%window-add @32",
            "%session-window-changed $1 @5",
            "%unlinked-window-close @6",
            "%window-close @7",
            "%paste-buffer-changed buffer0",
            "%session-changed $2 main",
            "%window-renamed @3 new name",
            "%client-session-changed whatever",
            "%unheard-of thing",
        ],
    );
    assert_eq!(events.len(), 8);
    assert!(matches!(events[0], TmuxEvent::PaneFocusChanged(0, 10)));
    assert!(matches!(events[1], TmuxEvent::WindowAdded(32)));
    assert!(matches!(events[2], TmuxEvent::TabFocusChanged(5)));
    assert!(matches!(events[3], TmuxEvent::TabClosed(6)));
    assert!(matches!(events[4], TmuxEvent::TabClosed(7)));
    assert!(matches!(&events[5], TmuxEvent::PasteBufferChanged(name) if name == "buffer0"));
    assert!(matches!(&events[6], TmuxEvent::SessionChanged(2, name) if name == "main"));
    assert!(matches!(&events[7], TmuxEvent::TabRenamed(3, name) if name == "new name"));
}

#[test]
fn carriage_returns_are_tolerated() {
    let mut state = attached();
    let events = events_of(&mut state, &["%window-renamed @3 name\r"]);
    assert!(matches!(&events[0], TmuxEvent::TabRenamed(3, name) if name == "name"));
}

#[test]
fn everything_before_the_first_begin_is_discarded() {
    let mut state = TmuxParserState::new();
    let events = events_of(
        &mut state,
        &[
            "user@host:~$ tmux -CC new-session",
            "%output %1 not yet",
            "\x1bP1000p%begin 1 2 0",
        ],
    );
    assert!(events.is_empty());
    assert!(state.preamble_done);
    assert!(state.awaiting_command);
    state.begin_command(TmuxCommand::Init);
    assert!(events_of(&mut state, &["%end 1 2 0"]).is_empty());
    assert_eq!(events_of(&mut state, &["%output %1 now"]).len(), 1);
}

#[test]
fn replies_are_held_back_until_they_end() {
    let mut state = answering(TmuxCommand::InitialOutput(4));
    assert!(events_of(&mut state, &["first", "", "sec\\012ond"]).is_empty());
    // A notification in between is not part of the reply
    assert_eq!(events_of(&mut state, &["%window-add @1"]).len(), 1);
    let events = events_of(&mut state, &["%end 1 2 0"]);
    assert_eq!(events.len(), 4);
    assert!(matches!(&events[0], TmuxEvent::Output(4, bytes, true) if bytes == b"first"));
    assert!(matches!(&events[1], TmuxEvent::Output(4, bytes, true) if bytes == b"\r\nsec\nond"));
    assert!(matches!(events[2], TmuxEvent::ScrollOutput(4, 0)));
    assert!(matches!(events[3], TmuxEvent::InitialOutputFinished(4)));
    assert!(state.current_command.is_none());
    assert!(state.block_lines.is_empty());
}

#[test]
fn buffer_content_keeps_its_lines() {
    let mut state = answering(TmuxCommand::FetchBuffer);
    let events = events_of(&mut state, &["one", "", "two é", "%end 1 2 0"]);
    assert_eq!(events.len(), 1);
    assert!(matches!(&events[0], TmuxEvent::ClipboardText(text) if text == "one\n\ntwo é"));

    let mut state = answering(TmuxCommand::FetchBuffer);
    let mut effects = Vec::new();
    assert!(tmux_parse_line(&mut state, b"a\xffb", &mut effects).is_ok());
    assert!(tmux_parse_line(&mut state, b"%end", &mut effects).is_ok());
    assert!(matches!(&effects[0], ParserEffect::Send(TmuxEvent::ClipboardText(text))
        if text == "a\u{fffd}b"));
}

#[test]
fn short_replies_become_events() {
    let end = |command| {
        let mut state = answering(command);
        events_of(&mut state, &["%end 1 2 0"])
    };
    assert!(matches!(end(TmuxCommand::ChangeSize(80, 24))[..], [TmuxEvent::SizeChanged]));
    assert!(matches!(
        end(TmuxCommand::ClearScrollback(3))[..],
        [TmuxEvent::ScrollbackCleared(3)]
    ));
    assert!(matches!(end(TmuxCommand::Keypress)[..], [TmuxEvent::KeypressAck]));
    assert!(matches!(
        end(TmuxCommand::InitialLayout)[..],
        [TmuxEvent::InitialLayoutFinished]
    ));
    assert!(end(TmuxCommand::TabClose).is_empty());
}

#[test]
fn layouts_in_replies_become_events() {
    let line = "@2 b25d,80x24,0,0,5 b25d,80x24,0,0,5 * shell";
    let mut state = answering(TmuxCommand::InitialLayout);
    let events = events_of(&mut state, &[line, "%end 1 2 0"]);
    assert!(matches!(&events[0], TmuxEvent::InitialLayout(layout)
        if layout.tab_id == 2 && layout.flags.has_focus));
    assert!(matches!(events[1], TmuxEvent::InitialLayoutFinished));

    let mut state = answering(TmuxCommand::TabNew);
    let events = events_of(&mut state, &[line, "%end 1 2 0"]);
    assert!(matches!(&events[0], TmuxEvent::TabNew(layout) if layout.tab_id == 2));

    let mut state = attached();
    let events = events_of(&mut state, &["%layout-change @2 b25d,80x24,0,0,5 b25d,80x24,0,0,5 *Z"]);
    assert!(matches!(&events[0], TmuxEvent::LayoutChanged(layout)
        if layout.flags.is_zoomed && layout.name.is_none()));
}

#[test]
fn only_the_path_of_the_asked_pane_is_opened() {
    let mut state = answering(TmuxCommand::PaneCurrentPath(5));
    let mut effects = Vec::new();
    for line in ["path: %4 /other", "path: %5 /home/user", "%end 1 2 0"] {
        assert!(tmux_parse_line(&mut state, line.as_bytes(), &mut effects).is_ok());
    }
    assert_eq!(effects.len(), 1);
    assert!(matches!(&effects[0], ParserEffect::OpenEditor(path) if path == "/home/user"));
}

#[test]
fn failed_commands_bring_no_events() {
    let mut state = answering(TmuxCommand::InitialLayout);
    let mut effects = Vec::new();
    for line in ["no such session", "%error 1 2 0"] {
        assert!(tmux_parse_line(&mut state, line.as_bytes(), &mut effects).is_ok());
    }
    assert_eq!(effects.len(), 1);
    assert!(matches!(&effects[0], ParserEffect::CommandFailed(Some(TmuxCommand::InitialLayout), lines)
        if lines == &vec![b"no such session".to_vec()]));
    assert!(state.current_command.is_none());
}

#[test]
fn invalid_text_and_malformed_lines_are_told_apart() {
    let mut state = attached();
    let mut effects = Vec::new();
    assert_eq!(
        try_parse_line(&mut state, b"%window-renamed @1 \xff", &mut effects),
        Some(Err(TmuxError::ErrorParsingUTF8))
    );
    assert_eq!(
        try_parse_line(&mut state, b"%unheard-of \xff", &mut effects),
        Some(Err(TmuxError::ErrorParsingUTF8))
    );
    // A broken escape, a number that does not fit, a broken layout
    assert_eq!(try_parse_line(&mut state, b"%output %1 M-\\M-\\", &mut effects), None);
    assert_eq!(try_parse_line(&mut state, b"%window-add @4294967296", &mut effects), None);
    assert_eq!(try_parse_line(&mut state, b"%layout-change @1 nonsense", &mut effects), None);
    assert!(effects.is_empty());
    assert_eq!(
        try_parse_line(&mut state, b"%exit gone", &mut effects),
        Some(Err(TmuxError::ExitEventReceived))
    );
    assert!(matches!(&effects[..], [ParserEffect::Send(TmuxEvent::Exit)]));
}

#[test]
fn streams_may_be_cut_anywhere() {
    let data = b"%output %1 one\r\n%window-add @7\n%output %2 tw\\157\n";
    for cut in 0..=data.len() {
        let mut state = attached();
        let mut effects = Vec::new();
        let (stop, read) = parse_lines(&mut state, &data[..cut], &mut effects);
        assert_eq!(stop, Ok(DataStep::NeedMore));
        let (stop, rest) = parse_lines(&mut state, &data[read..], &mut effects);
        assert_eq!(stop, Ok(DataStep::NeedMore));
        assert_eq!(read + rest, data.len());
        assert_eq!(effects.len(), 3);
        assert!(matches!(&effects[0], ParserEffect::Send(TmuxEvent::Output(1, out, false)) if out == b"one"));
        assert!(matches!(&effects[2], ParserEffect::Send(TmuxEvent::Output(2, out, false)) if out == b"two"));
    }
}

#[test]
fn replies_wait_for_their_command() {
    let mut state = attached();
    let mut effects = Vec::new();
    let data = b"%begin 1 2 0\n%end 1 2 0\n";
    assert_eq!(
        parse_lines(&mut state, data, &mut effects),
        (Ok(DataStep::AwaitCommand), 13)
    );
    assert_eq!(
        parse_lines(&mut state, &data[13..], &mut effects),
        (Ok(DataStep::AwaitCommand), 0)
    );
    state.begin_command(TmuxCommand::Keypress);
    assert_eq!(
        parse_lines(&mut state, &data[13..], &mut effects),
        (Ok(DataStep::NeedMore), 11)
    );
    assert!(matches!(&effects[..], [ParserEffect::Send(TmuxEvent::KeypressAck)]));
    assert_eq!(
        parse_lines(&mut state, b"%output %1 \\x\n", &mut effects),
        (Ok(DataStep::Malformed), 0)
    );
}

/// The reader reads on while a line is incomplete, and a full ring grows
#[test]
fn full_rings_grow_before_the_next_read() {
    let mut state = TmuxParserState::new();
    let mut ring = Ring::new(INITIAL_RING_CAPACITY).unwrap();
    let mut effects = Vec::new();
    let half = ring.write_len() / 2;
    for _ in 0..2 {
        ring.as_write_slice(half).fill(b'x');
        let action =
            run_tmux_reader(&mut state, &mut ring, &mut effects, ReaderEvent::Bytes(half));
        assert_eq!(action, ReaderAction::Read);
        assert!(ring.write_len() > 0);
    }
    assert_eq!(ring.read_len(), 2 * half);
    assert!(ring.write_len() >= 2 * half);
}

#[test]
fn streams_mean_the_same_with_both_line_endings() {
    let lines = ["%output %1 one", "", "%window-add @7", "text", "%exit gone", "%window-add @8"];
    let mut seen = Vec::new();
    for ending in ["\n", "\r\n"] {
        let mut data: String = lines.iter().map(|line| format!("{}{}", line, ending)).collect();
        data.push_str("%outp");
        let mut state = attached();
        let mut effects = Vec::new();
        let (stop, _) = parse_lines(&mut state, data.as_bytes(), &mut effects);
        assert_eq!(stop, Err(TmuxError::ExitEventReceived));
        // The exit comes last
        assert!(matches!(effects.last(), Some(ParserEffect::Send(TmuxEvent::Exit))));
        seen.push(format!("{:?}", effects));
    }
    assert_eq!(seen[0], seen[1]);

    // Both handle both lines
    for (data, handled) in [(&b"%window-add @7\ntext\n%out"[..], 20), (b"%window-add @7\r\ntext\r\n%out", 22)] {
        let (stop, consumed) = parse_lines(&mut attached(), data, &mut Vec::new());
        assert_eq!(stop, Ok(DataStep::NeedMore));
        assert_eq!(consumed, handled);
    }
}

/// Only what is asked for is limited, not the limit itself
#[test]
fn rings_grow_under_any_maximum() {
    let mut ring = Ring::new(INITIAL_RING_CAPACITY).unwrap();
    ring.as_write_slice(3).copy_from_slice(b"abc");
    ring.feed(3);
    assert!(grow_ring(&mut ring, usize::MAX).is_ok());
    assert_eq!(ring.as_read_slice(usize::MAX), b"abc");
}
