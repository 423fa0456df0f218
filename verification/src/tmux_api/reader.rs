//! The loop that reads Tmux control-mode output, as a state machine: the
//! program around it reads, delivers and waits, and reports what happened.

use vmap::io::Ring;
use vstd::prelude::*;

use super::receive::{
    data_run, law_lines_are_handled_in_order, lemma_consumed, line_len, line_run, nonempty_lines,
    notification, reply, reply_end, reply_line, reply_lines, tmux_parse_data, without_cr, DataStep,
};
use super::ring::{
    feed, grow_ring, grown_capacity, ring_free, ring_unread, write_len, MAX_RING_CAPACITY,
};
use super::{
    effects_view, EffectView, EventView, ParserEffect, ParserView, TmuxCommand, TmuxParserState,
};
use crate::helpers::TmuxError;

verus! {

/// Why the reader loop stopped
#[derive(Clone, Copy, Debug, PartialEq, Eq, Structural)]
pub enum ReaderStop {
    /// Tmux/ssh closed its stdout (process died, connection dropped)
    Eof,
    /// Reading from the Tmux stdout pipe failed
    ReadFailed,
    /// A single line exceeded MAX_RING_CAPACITY (or growing failed)
    BufferOverflow,
    /// The parser asked to stop (%exit received, event channel closed, ...)
    ParserStop(TmuxError),
}

/// What the reader does next.
#[derive(Clone, Copy, Debug, PartialEq, Eq, Structural)]
pub enum ReaderAction {
    /// Read into the free part of the ring
    Read,
    /// Take the next command from the queue
    TakeCommand,
    /// Give up on a line that Tmux never writes
    RejectLine,
    /// End the loop
    Stop(ReaderStop),
}

/// What the last action of the reader led to.
#[derive(Clone, Copy, Debug, PartialEq, Eq, Structural)]
pub enum ReaderEvent {
    /// So many bytes were read into the free part of the ring
    Bytes(usize),
    /// The read was interrupted before anything arrived
    Interrupted,
    /// The read failed
    Failed,
    /// This command is the one being answered
    Command(TmuxCommand),
}

/// What comes before each read. A full ring without a complete line means
/// that the parser can never make progress and that a read has no space to
/// write to: the ring grows.
pub fn before_read(ring_buffer: &mut Ring) -> (action: ReaderAction)
    ensures
        ring_unread(*final(ring_buffer)) == ring_unread(*old(ring_buffer)),
        ring_free(*old(ring_buffer)).len() > 0 ==> action == ReaderAction::Read
            && *final(ring_buffer) == *old(ring_buffer),
        ring_free(*old(ring_buffer)).len() == 0 && grown_capacity(
            ring_unread(*old(ring_buffer)).len(),
            MAX_RING_CAPACITY as nat,
        ) is None ==> action == ReaderAction::Stop(ReaderStop::BufferOverflow),
        action == ReaderAction::Read || action == ReaderAction::Stop(ReaderStop::BufferOverflow),
        action == ReaderAction::Read ==> ring_free(*final(ring_buffer)).len() > 0,
{
    if write_len(ring_buffer) == 0 {
        if grow_ring(ring_buffer, MAX_RING_CAPACITY).is_err() {
            return ReaderAction::Stop(ReaderStop::BufferOverflow);
        }
    }
    ReaderAction::Read
}

/// Parses what the ring holds, and says what comes next: `Read` once every
/// complete line was handled.
pub fn parse_step(
    state: &mut TmuxParserState,
    ring_buffer: &mut Ring,
    effects: &mut Vec<ParserEffect>,
) -> (action: ReaderAction)
    ensures
        parse_stepped(
            old(state)@,
            final(state)@,
            ring_unread(*old(ring_buffer)),
            ring_free(*old(ring_buffer)).len(),
            ring_unread(*final(ring_buffer)),
            action,
        ),
        effects_view(final(effects)@) == effects_view(old(effects)@) + data_run(
            old(state)@,
            ring_unread(*old(ring_buffer)),
        ).effects,
        action == ReaderAction::Read ==> ring_free(*final(ring_buffer)).len() > 0,
{
    proof {
        let unread = ring_unread(*ring_buffer);
        lemma_consumed(state@, unread);
        assert(unread.skip(0) =~= unread);
    }
    match tmux_parse_data(state, ring_buffer, effects) {
        Err(err) => ReaderAction::Stop(ReaderStop::ParserStop(err)),
        Ok(DataStep::AwaitCommand) => ReaderAction::TakeCommand,
        Ok(DataStep::Malformed) => ReaderAction::RejectLine,
        Ok(DataStep::NeedMore) => before_read(ring_buffer),
    }
}

/// How parsing what a ring with `free` free bytes holds moves the reader on.
/// It reads on where there is room, once the handled lines are dropped; a ring
/// that is still full grows, which fails where it must not become so large,
/// and otherwise only where the memory cannot be had.
pub open spec fn parse_stepped(
    before: ParserView,
    after: ParserView,
    unread: Seq<u8>,
    free: nat,
    left: Seq<u8>,
    action: ReaderAction,
) -> bool {
    let run = data_run(before, unread);
    &&& after == run.state
    &&& left == (if run.stop is Err {
        unread
    } else {
        unread.skip(run.consumed)
    })
    &&& match run.stop {
        Err(error) => action == ReaderAction::Stop(ReaderStop::ParserStop(error)),
        Ok(DataStep::AwaitCommand) => action == ReaderAction::TakeCommand,
        Ok(DataStep::Malformed) => action == ReaderAction::RejectLine,
        Ok(DataStep::NeedMore) => if free + run.consumed > 0 {
            action == ReaderAction::Read
        } else if grown_capacity(unread.len(), MAX_RING_CAPACITY as nat) is None {
            action == ReaderAction::Stop(ReaderStop::BufferOverflow)
        } else {
            action == ReaderAction::Read || action == ReaderAction::Stop(ReaderStop::BufferOverflow)
        },
    }
}

/// One step of the reader loop.
pub fn run_tmux_reader(
    state: &mut TmuxParserState,
    ring_buffer: &mut Ring,
    effects: &mut Vec<ParserEffect>,
    event: ReaderEvent,
) -> (action: ReaderAction)
    ensures
        match event {
            // Reading 0 bytes into a non-full buffer means EOF
            ReaderEvent::Bytes(0) => {
                &&& action == ReaderAction::Stop(ReaderStop::Eof)
                &&& *final(state) == *old(state)
                &&& *final(ring_buffer) == *old(ring_buffer)
                &&& final(effects)@ == old(effects)@
            },
            ReaderEvent::Bytes(n) => {
                let free = ring_free(*old(ring_buffer));
                let read = free.take(if n <= free.len() { n as int } else { free.len() as int });
                let unread = ring_unread(*old(ring_buffer)) + read;
                &&& parse_stepped(
                    old(state)@,
                    final(state)@,
                    unread,
                    (free.len() - read.len()) as nat,
                    ring_unread(*final(ring_buffer)),
                    action,
                )
                &&& action == ReaderAction::Read ==> ring_free(*final(ring_buffer)).len() > 0
                &&& effects_view(final(effects)@) == effects_view(old(effects)@) + data_run(
                    old(state)@,
                    unread,
                ).effects
            },
            ReaderEvent::Interrupted => {
                &&& action == ReaderAction::Read
                &&& *final(state) == *old(state)
                &&& *final(ring_buffer) == *old(ring_buffer)
                &&& final(effects)@ == old(effects)@
            },
            ReaderEvent::Failed => {
                &&& action == ReaderAction::Stop(ReaderStop::ReadFailed)
                &&& *final(state) == *old(state)
                &&& *final(ring_buffer) == *old(ring_buffer)
                &&& final(effects)@ == old(effects)@
            },
            ReaderEvent::Command(command) => {
                let named = ParserView { command: Some(command), awaiting: false, ..old(state)@ };
                &&& parse_stepped(
                    named,
                    final(state)@,
                    ring_unread(*old(ring_buffer)),
                    ring_free(*old(ring_buffer)).len(),
                    ring_unread(*final(ring_buffer)),
                    action,
                )
                &&& action == ReaderAction::Read ==> ring_free(*final(ring_buffer)).len() > 0
                &&& effects_view(final(effects)@) == effects_view(old(effects)@) + data_run(
                    named,
                    ring_unread(*old(ring_buffer)),
                ).effects
            },
        },
{
    match event {
        ReaderEvent::Bytes(n) => {
            if n == 0 {
                return ReaderAction::Stop(ReaderStop::Eof);
            }
            feed(ring_buffer, n);
            parse_step(state, ring_buffer, effects)
        },
        ReaderEvent::Interrupted => ReaderAction::Read,
        ReaderEvent::Failed => ReaderAction::Stop(ReaderStop::ReadFailed),
        ReaderEvent::Command(command) => {
            state.begin_command(command);
            parse_step(state, ring_buffer, effects)
        },
    }
}

/// Whether the window still has to be told that the connection is gone when
/// the reader stops: not where `%exit` was delivered, nor where nobody
/// listens anymore.
pub open spec fn exit_is_owed(stop: ReaderStop) -> bool {
    stop != ReaderStop::ParserStop(TmuxError::ExitEventReceived) && stop != ReaderStop::ParserStop(
        TmuxError::EventChannelClosed,
    )
}

/// Whether the reader, having stopped, sends `TmuxEvent::Exit` itself.
pub fn sends_exit_on_stop(stop: ReaderStop) -> (r: bool)
    ensures
        r == exit_is_owed(stop),
{
    match stop {
        ReaderStop::ParserStop(TmuxError::ExitEventReceived) => false,
        ReaderStop::ParserStop(TmuxError::EventChannelClosed) => false,
        _ => true,
    }
}

// ---------------------------------------------------------------------------
// Laws
// ---------------------------------------------------------------------------

/// Number of times that the effects tell the window that the connection is
/// gone.
pub open spec fn exits(effects: Seq<EffectView>) -> nat
    decreases effects.len(),
{
    if effects.len() == 0 {
        0
    } else {
        exits(effects.drop_last()) + (effects.last() == EffectView::Send(EventView::Exit)) as nat
    }
}

proof fn lemma_exits_concat(a: Seq<EffectView>, b: Seq<EffectView>)
    ensures
        exits(a + b) == exits(a) + exits(b),
    decreases b.len(),
{
    if b.len() == 0 {
        assert(a + b =~= a);
    } else {
        assert((a + b).drop_last() =~= a + b.drop_last());
        lemma_exits_concat(a, b.drop_last());
    }
}

proof fn lemma_exits_one(effect: EffectView)
    ensures
        exits(seq![effect]) == (effect == EffectView::Send(EventView::Exit)) as nat,
{
    reveal_with_fuel(exits, 2);
    assert(seq![effect].drop_last() =~= Seq::empty());
}

proof fn lemma_reply_line_exits(command: TmuxCommand, line: Seq<u8>, index: nat)
    requires
        reply_line(command, line, index) is Some,
    ensures
        exits(reply_line(command, line, index)->Some_0.effects) == 0,
        reply_line(command, line, index)->Some_0.error != Some(TmuxError::ExitEventReceived),
        reply_line(command, line, index)->Some_0.error != Some(TmuxError::EventChannelClosed),
{
    let effects = reply_line(command, line, index)->Some_0.effects;
    if effects.len() == 1 {
        lemma_exits_one(effects[0]);
        assert(effects =~= seq![effects[0]]);
    }
}

proof fn lemma_reply_lines_exits(command: TmuxCommand, lines: Seq<Seq<u8>>)
    requires
        reply_lines(command, lines) is Some,
    ensures
        exits(reply_lines(command, lines)->Some_0.effects) == 0,
        reply_lines(command, lines)->Some_0.error != Some(TmuxError::ExitEventReceived),
        reply_lines(command, lines)->Some_0.error != Some(TmuxError::EventChannelClosed),
    decreases lines.len(),
{
    if lines.len() > 0 {
        lemma_reply_lines_exits(command, lines.drop_last());
        let before = reply_lines(command, lines.drop_last())->Some_0;
        if before.error is None && lines.last().len() > 0 {
            let index = nonempty_lines(lines.drop_last());
            lemma_reply_line_exits(command, lines.last(), index);
            lemma_exits_concat(
                before.effects,
                reply_line(command, lines.last(), index)->Some_0.effects,
            );
        }
    }
}

proof fn lemma_reply_exits(command: TmuxCommand, lines: Seq<Seq<u8>>)
    requires
        reply(command, lines) is Some,
    ensures
        exits(reply(command, lines)->Some_0.effects) == 0,
        reply(command, lines)->Some_0.error != Some(TmuxError::ExitEventReceived),
        reply(command, lines)->Some_0.error != Some(TmuxError::EventChannelClosed),
{
    lemma_reply_lines_exits(command, lines);
    let outcome = reply_lines(command, lines)->Some_0;
    let end = reply_end(command, lines);
    if end.len() == 1 {
        lemma_exits_one(end[0]);
        assert(end =~= seq![end[0]]);
    } else if end.len() == 2 {
        lemma_exits_one(end[0]);
        lemma_exits_one(end[1]);
        lemma_exits_concat(seq![end[0]], seq![end[1]]);
        assert(end =~= seq![end[0]] + seq![end[1]]);
    }
    lemma_exits_concat(outcome.effects, end);
}

proof fn lemma_notification_exits(n: Seq<u8>)
    requires
        notification(n) is Some,
    ensures
        exits(notification(n)->Some_0.effects) == (notification(n)->Some_0.error == Some(
            TmuxError::ExitEventReceived,
        )) as nat,
        notification(n)->Some_0.error == Some(TmuxError::ExitEventReceived)
            ==> notification(n)->Some_0.effects == seq![EffectView::Send(EventView::Exit)],
        notification(n)->Some_0.error != Some(TmuxError::EventChannelClosed),
{
    let effects = notification(n)->Some_0.effects;
    if effects.len() == 1 {
        lemma_exits_one(effects[0]);
        assert(effects =~= seq![effects[0]]);
    }
}

proof fn lemma_line_exits(state: ParserView, raw: Seq<u8>)
    requires
        line_run(state, raw) is Some,
    ensures
        exits(line_run(state, raw)->Some_0.outcome.effects) == (line_run(
            state,
            raw,
        )->Some_0.outcome.error == Some(TmuxError::ExitEventReceived)) as nat,
        line_run(state, raw)->Some_0.outcome.error == Some(TmuxError::ExitEventReceived)
            ==> line_run(state, raw)->Some_0.outcome.effects == seq![
            EffectView::Send(EventView::Exit),
        ],
        line_run(state, raw)->Some_0.outcome.error != Some(TmuxError::EventChannelClosed),
{
    reveal(line_run);
    let line = without_cr(raw);
    lemma_exits_one(EffectView::CommandFailed(state.command, state.lines));
    if notification(line) is Some {
        lemma_notification_exits(line);
    }
    if state.command is Some && reply(state.command->Some_0, state.lines) is Some {
        lemma_reply_exits(state.command->Some_0, state.lines);
    }
}

/// The window is told exactly once that the connection is gone, and nothing
/// after that: by the parser where Tmux said so itself, and otherwise by the
/// reader once it stops.
pub proof fn law_exit_is_announced_once(state: ParserView, data: Seq<u8>)
    ensures
        ({
            let run = data_run(state, data);
            &&& exits(run.effects) == (run.stop == Err::<DataStep, TmuxError>(
                TmuxError::ExitEventReceived,
            )) as nat
            &&& run.stop == Err::<DataStep, TmuxError>(TmuxError::ExitEventReceived)
                ==> run.effects.len() > 0 && run.effects.last() == EffectView::Send(EventView::Exit)
            &&& run.stop matches Err(error) ==> exits(run.effects) + exit_is_owed(
                ReaderStop::ParserStop(error),
            ) as nat == 1
        }),
    decreases data.len(),
{
    let n = line_len(data);
    if !state.awaiting && 0 <= n < data.len() {
        if let Some(run) = line_run(state, data.take(n)) {
            lemma_line_exits(state, data.take(n));
            if run.outcome.error is None {
                law_exit_is_announced_once(run.state, data.skip(n + 1));
                lemma_exits_concat(
                    run.outcome.effects,
                    data_run(run.state, data.skip(n + 1)).effects,
                );
            }
        }
    }
}

/// The window is told that the connection is gone however it ended, unless it
/// was told already or does not listen anymore.
pub proof fn law_lost_connections_are_announced(error: TmuxError)
    ensures
        exit_is_owed(ReaderStop::Eof),
        exit_is_owed(ReaderStop::ReadFailed),
        exit_is_owed(ReaderStop::BufferOverflow),
        exit_is_owed(ReaderStop::ParserStop(error)) <==> error == TmuxError::ErrorParsingUTF8,
{
}

/// The reader goes on as long as it can: an incomplete line stays in the ring
/// and is read on, where there is room; a reply waits for its command; a
/// malformed line is rejected; and an error of the parser ends the loop with
/// that error.
pub proof fn law_reader_goes_on(
    before: ParserView,
    after: ParserView,
    unread: Seq<u8>,
    free: nat,
    left: Seq<u8>,
    action: ReaderAction,
)
    requires
        parse_stepped(before, after, unread, free, left, action),
    ensures
        !before.awaiting && !unread.contains(10) ==> {
            &&& after == before
            &&& left == unread
            &&& free > 0 ==> action == ReaderAction::Read
            &&& free == 0 && 2 * unread.len() > 64 * 1024 * 1024 ==> action == ReaderAction::Stop(
                ReaderStop::BufferOverflow,
            )
            &&& action == ReaderAction::Read || action == ReaderAction::Stop(
                ReaderStop::BufferOverflow,
            )
        },
        before.awaiting ==> after == before && left == unread && action
            == ReaderAction::TakeCommand,
        data_run(before, unread).stop matches Err(error) ==> left == unread && action
            == ReaderAction::Stop(ReaderStop::ParserStop(error)),
        data_run(before, unread).stop == Ok::<DataStep, TmuxError>(DataStep::Malformed) ==> action
            == ReaderAction::RejectLine,
        data_run(before, unread).stop == Ok::<DataStep, TmuxError>(DataStep::AwaitCommand)
            ==> action == ReaderAction::TakeCommand,
        data_run(before, unread).stop is Ok ==> left == unread.skip(
            data_run(before, unread).consumed,
        ),
        after == data_run(before, unread).state,
{
    if !unread.contains(10) {
        law_lines_are_handled_in_order(before, unread, Seq::empty());
    }
    assert(unread.skip(0) =~= unread);
}

} // verus!
