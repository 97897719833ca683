//! Calls on a client that are made one after the other, and what holds of any series of them.
//!
//! The phase and the channel are what such calls make of them: nothing else moves the phase, and
//! the commands that the channel accepted are known, in order. Whether the channel has room is
//! still open, so each call comes with an [`Answer`] of the channel. Calls that overlap are the
//! subject of [`crate::crowd`].
use crate::channel::{in_order, lemma_in_order_all, OfferedView};
use crate::client::{
    admission, closed_error, delivery, disconnect_end, disconnect_step, disconnected_error,
    full_error, settled_at_once, settled_or_wait, wait_error, DisconnectStepView,
    ProgressView,
};
use crate::error::ErrorView;
use crate::phase::{CONNECTED, DISCONNECTED};
use crate::state::StateView;
use crate::wire::{
    bytes, is_run, law_disconnect_is_graceful, law_idle_is_caught_up, law_nothing_unasked,
    law_sends_then_flush, lemma_marks_prefix, marks, performed, received, step_after, unfailing,
    Mark, WriterEvent,
};
use vstd::prelude::*;

verus! {

/// A call on a client.
pub enum Call {
    TrySend(Seq<u8>),
    Send(Seq<u8>),
    SendAll(Seq<u8>),
    Flush,
    Disconnect,
}

/// What a channel says to a command that is offered without waiting.
pub enum Room {
    Free,
    Full,
    Closed,
}

/// What the channel says in the course of one call: at once, and, where the call waits, in the
/// end.
pub struct Answer {
    pub room: Room,
    pub taken: bool,
}

/// A client after some calls.
#[verifier::ext_equal]
pub struct Session {
    /// Whether the client is disconnected. Between calls it is never in the middle of that.
    pub disconnected: bool,
    /// The address of the peer as text.
    pub peer: Seq<char>,
    /// The commands that the channel has accepted, in order.
    pub accepted: Seq<StateView>,
}

/// The command that a call sends.
pub open spec fn command_of(call: Call) -> StateView {
    match call {
        Call::TrySend(data) => StateView::Send(data),
        Call::Send(data) => StateView::Send(data),
        Call::SendAll(data) => StateView::SendFlush(data),
        Call::Flush => StateView::Flush,
        Call::Disconnect => StateView::Disconnect,
    }
}

/// What comes of offering `command` to a channel that has `room`.
pub open spec fn offer_outcome(room: Room, command: StateView) -> OfferedView {
    match room {
        Room::Free => OfferedView::Accepted,
        Room::Full => OfferedView::Full(command),
        Room::Closed => OfferedView::Closed(command),
    }
}

/// The outcome of a claim to send `Disconnect` on a client that is in `phase`.
pub open spec fn claim_outcome(phase: u8) -> core::result::Result<u8, u8> {
    if phase == CONNECTED {
        Ok(phase)
    } else {
        Err(phase)
    }
}

impl Session {
    /// A client that no call has been made on.
    pub open spec fn fresh(peer: Seq<char>) -> Session {
        Session { disconnected: false, peer, accepted: Seq::empty() }
    }

    /// The session with one more accepted command.
    pub open spec fn accepting(self, command: StateView) -> Session {
        Session { accepted: self.accepted.push(command), ..self }
    }

    /// A call that does not wait: what it makes of the session, and its result.
    pub open spec fn try_send(self, command: StateView, room: Room) -> (
        Session,
        core::result::Result<(), ErrorView>,
    ) {
        match admission(self.disconnected, self.peer) {
            Err(error) => (self, Err(error)),
            Ok(()) => {
                let outcome = offer_outcome(room, command);
                let session = if outcome is Accepted {
                    self.accepting(command)
                } else {
                    self
                };
                (session, settled_at_once(outcome))
            },
        }
    }

    /// The end of a call that has to send `command` by waiting.
    pub open spec fn wait(self, command: StateView, taken: bool) -> (
        Session,
        core::result::Result<(), ErrorView>,
    ) {
        (
            if taken {
                self.accepting(command)
            } else {
                self
            },
            delivery(taken),
        )
    }

    /// A call that waits where there is no room.
    pub open spec fn send(self, command: StateView, answer: Answer) -> (
        Session,
        core::result::Result<(), ErrorView>,
    ) {
        match admission(self.disconnected, self.peer) {
            Err(error) => (self, Err(error)),
            Ok(()) => match settled_or_wait(offer_outcome(answer.room, command)) {
                Err(error) => (self, Err(error)),
                Ok(ProgressView::Done) => (self.accepting(command), Ok(())),
                Ok(ProgressView::Wait(waiting)) => self.wait(waiting, answer.taken),
            },
        }
    }

    /// The phase that the client is in.
    pub open spec fn phase(self) -> u8 {
        if self.disconnected {
            DISCONNECTED
        } else {
            CONNECTED
        }
    }

    /// A disconnect. No other one can be under way.
    pub open spec fn disconnect(self, taken: bool) -> (
        Session,
        core::result::Result<(), ErrorView>,
    ) {
        match disconnect_step(claim_outcome(self.phase())) {
            DisconnectStepView::Wait(command) => {
                let (disconnected, result) = disconnect_end(taken);
                (Session { disconnected, ..self.wait(command, taken).0 }, result)
            },
            _ => (self, Ok(())),
        }
    }

    /// Any call: what it makes of the session, and its result.
    pub open spec fn call(self, call: Call, answer: Answer) -> (
        Session,
        core::result::Result<(), ErrorView>,
    ) {
        match call {
            Call::TrySend(_) => self.try_send(command_of(call), answer.room),
            Call::Disconnect => self.disconnect(answer.taken),
            _ => self.send(command_of(call), answer),
        }
    }
}

/// The session after a series of calls on a fresh client.
pub open spec fn session_after(peer: Seq<char>, calls: Seq<(Call, Answer)>) -> Session
    decreases calls.len(),
{
    if calls.len() == 0 {
        Session::fresh(peer)
    } else {
        session_after(peer, calls.drop_last()).call(calls.last().0, calls.last().1).0
    }
}

/// On a disconnected client every call but a disconnect is refused, with an error that names the
/// peer, and changes nothing, whatever the channel would have said.
pub proof fn law_refused_after_disconnect(session: Session, call: Call, answer: Answer)
    requires
        session.disconnected,
        !(call is Disconnect),
    ensures
        session.call(call, answer) == (session, Err::<(), ErrorView>(
            disconnected_error(session.peer),
        )),
{
}

/// Disconnecting is idempotent: on a disconnected client it succeeds and changes nothing, in
/// particular no second `Disconnect` is sent. And a disconnect that succeeds leaves the client
/// disconnected.
pub proof fn law_disconnect_is_idempotent(session: Session, first: Answer, second: Answer)
    ensures
        session.disconnected ==> session.call(Call::Disconnect, second) == (session, Ok::<
            (),
            ErrorView,
        >(())),
        ({
            let (after, result) = session.call(Call::Disconnect, first);
            result is Ok ==> after.disconnected && after.call(Call::Disconnect, second) == (
                after,
                Ok::<(), ErrorView>(()),
            )
        }),
{
}

/// A call other than a disconnect succeeds exactly where its command, and no other, became the
/// last of the accepted ones. A call that fails changes nothing.
pub proof fn law_success_is_acceptance(session: Session, call: Call, answer: Answer)
    ensures
        ({
            let (after, result) = session.call(call, answer);
            &&& result is Ok && !(call is Disconnect) ==> after == session.accepting(
                command_of(call),
            )
            &&& result is Err ==> after == session
        }),
{
}

/// Which results a call on a connected client has, by what the channel says. A call that does not
/// wait fails where there is no room; one that waits fails only where the channel is closed.
pub proof fn law_results_when_connected(session: Session, call: Call, answer: Answer)
    requires
        !session.disconnected,
    ensures
        session.call(call, answer).1 == match (call, answer.room) {
            (Call::Disconnect, _) => delivery(answer.taken),
            (_, Room::Free) => Ok(()),
            (_, Room::Closed) => Err(closed_error()),
            (Call::TrySend(_), Room::Full) => Err(full_error()),
            (_, Room::Full) => if answer.taken {
                Ok(())
            } else {
                Err(wait_error())
            },
        },
{
}

/// In any series of calls `Disconnect` is accepted at most once, nothing is accepted after it, and
/// it has been accepted exactly where the client is disconnected.
pub proof fn law_disconnect_once_and_last(peer: Seq<char>, calls: Seq<(Call, Answer)>)
    ensures
        ({
            let session = session_after(peer, calls);
            &&& forall|i: int|
                0 <= i < session.accepted.len() ==> (#[trigger] session.accepted[i] is Disconnect
                    <==> session.disconnected && i == session.accepted.len() - 1)
            &&& session.disconnected ==> session.accepted.len() > 0
        }),
    decreases calls.len(),
{
    if calls.len() > 0 {
        law_disconnect_once_and_last(peer, calls.drop_last());
    }
}

/// What reaches the wire is what was accepted, in order: where the writer has received a beginning
/// of the accepted commands, what it has done is a prefix of what the accepted commands ask for.
pub proof fn law_accepted_reaches_wire(
    peer: Seq<char>,
    calls: Seq<(Call, Answer)>,
    events: Seq<WriterEvent>,
)
    requires
        is_run(events),
        received(events).is_prefix_of(session_after(peer, calls).accepted),
    ensures
        performed(events).is_prefix_of(marks(session_after(peer, calls).accepted)),
{
    let accepted = session_after(peer, calls).accepted;
    law_nothing_unasked(events);
    lemma_marks_prefix(received(events), accepted);
    let n = performed(events).len() as int;
    assert(performed(events) =~= marks(accepted).subrange(0, n));
}

/// Whether the writer has received as many commands as were accepted, in the order in which they
/// were accepted.
pub open spec fn received_all(events: Seq<WriterEvent>, accepted: Seq<StateView>) -> bool {
    &&& is_run(events)
    &&& in_order(received(events), accepted)
    &&& received(events).len() == accepted.len()
}

/// Where the writer has received all that was accepted and is back at waiting for a command, or was
/// told that the channel is closed, exactly what was accepted has reached the wire.
pub proof fn law_all_accepted_reaches_wire(accepted: Seq<StateView>, events: Seq<WriterEvent>)
    requires
        received_all(events, accepted),
        step_after(events) is Receive || (events.len() > 0 && events.last() is Ended),
    ensures
        performed(events) == marks(accepted),
{
    lemma_in_order_all(received(events), accepted);
    law_idle_is_caught_up(events);
}

/// Whether each of the calls succeeds, and none is a disconnect.
pub open spec fn all_succeed(peer: Seq<char>, calls: Seq<(Call, Answer)>) -> bool
    decreases calls.len(),
{
    calls.len() == 0 || {
        &&& all_succeed(peer, calls.drop_last())
        &&& !(calls.last().0 is Disconnect)
        &&& session_after(peer, calls.drop_last()).call(calls.last().0, calls.last().1).1 is Ok
    }
}

/// Calls that succeed have their commands accepted, each once and in the order of the calls.
pub proof fn law_successful_calls_are_accepted(peer: Seq<char>, calls: Seq<(Call, Answer)>)
    requires
        all_succeed(peer, calls),
    ensures
        session_after(peer, calls).accepted == calls.map_values(
            |made: (Call, Answer)| command_of(made.0),
        ),
        !session_after(peer, calls).disconnected,
    decreases calls.len(),
{
    let commands = calls.map_values(|made: (Call, Answer)| command_of(made.0));
    if calls.len() == 0 {
        assert(commands =~= Seq::empty());
    } else {
        let before = calls.drop_last();
        law_successful_calls_are_accepted(peer, before);
        law_success_is_acceptance(session_after(peer, before), calls.last().0, calls.last().1);
        assert(commands =~= before.map_values(
            |made: (Call, Answer)| command_of(made.0),
        ).push(command_of(calls.last().0)));
    }
}

/// Sends that succeed put exactly their bytes on the wire, in the order of the calls, and cause no
/// flush. A flush after them adds one flush, and no byte.
pub proof fn law_sends_reach_wire(
    peer: Seq<char>,
    parts: Seq<Seq<u8>>,
    calls: Seq<(Call, Answer)>,
    flush: Answer,
    events: Seq<WriterEvent>,
)
    requires
        calls.len() == parts.len(),
        forall|i: int| 0 <= i < calls.len() ==> (#[trigger] calls[i]).0 == Call::Send(parts[i]),
        all_succeed(peer, calls),
        step_after(events) is Receive,
    ensures
        received_all(events, session_after(peer, calls).accepted) ==> performed(events) == bytes(
            parts.flatten_alt(),
        ),
        ({
            let flushed = calls.push((Call::Flush, flush));
            all_succeed(peer, flushed) && received_all(
                events,
                session_after(peer, flushed).accepted,
            ) ==> performed(events) == bytes(parts.flatten_alt()).push(Mark::Flush)
        }),
{
    let sends = parts.map_values(|part: Seq<u8>| StateView::Send(part));
    let flushed = calls.push((Call::Flush, flush));
    law_sends_then_flush(parts);
    law_successful_calls_are_accepted(peer, calls);
    assert(session_after(peer, calls).accepted =~= sends);
    if received_all(events, session_after(peer, calls).accepted) {
        law_all_accepted_reaches_wire(sends, events);
    }
    if all_succeed(peer, flushed) && received_all(events, session_after(peer, flushed).accepted) {
        law_successful_calls_are_accepted(peer, flushed);
        assert(session_after(peer, flushed).accepted =~= sends.push(StateView::Flush));
        law_all_accepted_reaches_wire(sends.push(StateView::Flush), events);
    }
}

/// A disconnect is graceful: where it succeeds on a connected client, the writer has received all
/// that was accepted and nothing fails, all that was accepted before it has reached the wire, then
/// the write half was shut down once, and the writer has ended.
pub proof fn law_disconnect_is_graceful_for_calls(
    peer: Seq<char>,
    calls: Seq<(Call, Answer)>,
    answer: Answer,
    events: Seq<WriterEvent>,
)
    requires
        !session_after(peer, calls).disconnected,
        session_after(peer, calls).call(Call::Disconnect, answer).1 is Ok,
        received_all(
            events,
            session_after(peer, calls).call(Call::Disconnect, answer).0.accepted,
        ),
        step_after(events) is Receive || step_after(events) is Stop,
        unfailing(events),
    ensures
        performed(events) == marks(session_after(peer, calls).accepted).push(Mark::Shutdown),
        step_after(events) is Stop,
{
    let before = session_after(peer, calls).accepted;
    let all = session_after(peer, calls).call(Call::Disconnect, answer).0.accepted;
    law_disconnect_once_and_last(peer, calls);
    lemma_in_order_all(received(events), all);
    assert(all =~= before + seq![StateView::Disconnect] + Seq::empty());
    assert(all =~= all.subrange(0, all.len() as int));
    law_disconnect_is_graceful(before, Seq::empty(), events);
}

} // verus!
