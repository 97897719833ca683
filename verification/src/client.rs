//! The client: the calls that put commands on the channel, and the rules for their results.
//!
//! A call that may have to wait for room in the channel stops short of waiting and returns
//! [`Progress::Wait`] with the command. The caller then sends that command through
//! [`TcpClient::sender`], waiting as long as it takes, and hands the outcome to [`delivered`].
//! After [`DisconnectStep::Wait`] the outcome goes to [`TcpClient::finish_disconnect`] instead.
//!
//! What the phase and the channel say at one moment is not for a client to know beforehand, as
//! other tasks use both. The functions [`check_phase`], [`settle_at_once`], [`settle_or_wait`],
//! [`delivered`], [`begin_disconnect`] and [`settle_disconnect`] take what they said and decide; the
//! methods of [`TcpClient`] ask, and let them decide.
//!
//! What a method does to the client itself is known all the same: [`trace`] keeps account of it, and
//! [`crate::payload`] sees to it that the bytes of a call are sent once.
pub mod trace;

use crate::channel::{
    accepted, bounded, capacity, deliverable, refused_closed, refused_full, send_error_text,
    taken, Offered, OfferedView, CHANNEL_CAPACITY,
};
use crate::client::trace::{
    accepted_in, claiming, creations_in, lemma_one_more, moves_in, phase_in, raising, recording,
    releasing, Access, Trace,
};
use crate::error::{Error, ErrorView, Result};
use crate::payload::{Nothing, Payload};
use crate::phase::{Phase, CONNECTED, DISCONNECTED};
use crate::state::{State, StateView};
use std::marker::PhantomData;
use vstd::prelude::*;
use vstd::string::*;

verus! {

/// How far a call has come that may have to wait.
#[derive(Debug)]
pub enum Progress {
    /// Nothing is left to do.
    Done,
    /// The command still has to be sent, by waiting until the channel takes it.
    Wait(State),
}

/// A [`Progress`] as a mathematical value.
#[verifier::ext_equal]
pub enum ProgressView {
    Done,
    Wait(StateView),
}

impl View for Progress {
    type V = ProgressView;

    open spec fn view(&self) -> ProgressView {
        match self {
            Progress::Done => ProgressView::Done,
            Progress::Wait(command) => ProgressView::Wait(command@),
        }
    }
}

/// What a disconnect has to do.
#[derive(Debug)]
pub enum DisconnectStep {
    /// Nothing: the client is disconnected.
    Done,
    /// To wait until the disconnect of another task has ended, and then to ask again.
    Busy,
    /// To send the command, by waiting until the channel takes it.
    Wait(State),
}

/// A [`DisconnectStep`] as a mathematical value.
#[verifier::ext_equal]
pub enum DisconnectStepView {
    Done,
    Busy,
    Wait(StateView),
}

impl View for DisconnectStep {
    type V = DisconnectStepView;

    open spec fn view(&self) -> DisconnectStepView {
        match self {
            DisconnectStep::Done => DisconnectStepView::Done,
            DisconnectStep::Busy => DisconnectStepView::Busy,
            DisconnectStep::Wait(command) => DisconnectStepView::Wait(command@),
        }
    }
}

/// The result of a call as a mathematical value.
pub open spec fn result_view(result: Result<()>) -> core::result::Result<(), ErrorView> {
    match result {
        Ok(()) => Ok(()),
        Err(error) => Err(error@),
    }
}

/// The result of a call that may have to wait as a mathematical value.
pub open spec fn progress_view(result: Result<Progress>) -> core::result::Result<
    ProgressView,
    ErrorView,
> {
    match result {
        Ok(progress) => Ok(progress@),
        Err(error) => Err(error@),
    }
}

/// The error of a call on a disconnected client.
pub open spec fn disconnected_error(peer: Seq<char>) -> ErrorView {
    ErrorView::SendError("Disconnect (peer: "@ + peer + ")"@)
}

/// The error of a call that does not wait and finds no room.
pub open spec fn full_error() -> ErrorView {
    ErrorView::SendError("channel full"@)
}

/// The error of a call that finds the channel closed.
pub open spec fn closed_error() -> ErrorView {
    ErrorView::SendError("channel closed"@)
}

/// The error of a call for which the channel closes while it waits.
pub open spec fn wait_error() -> ErrorView {
    ErrorView::AsyncChannelError("sending into a closed channel"@)
}

/// Whether a call gets as far as the channel.
pub open spec fn admission(disconnected: bool, peer: Seq<char>) -> core::result::Result<
    (),
    ErrorView,
> {
    if disconnected {
        Err(disconnected_error(peer))
    } else {
        Ok(())
    }
}

/// The result of a call that does not wait.
pub open spec fn settled_at_once(outcome: OfferedView) -> core::result::Result<(), ErrorView> {
    match outcome {
        OfferedView::Accepted => Ok(()),
        OfferedView::Full(_) => Err(full_error()),
        OfferedView::Closed(_) => Err(closed_error()),
    }
}

/// The result of a call that waits where there is no room.
pub open spec fn settled_or_wait(outcome: OfferedView) -> core::result::Result<
    ProgressView,
    ErrorView,
> {
    match outcome {
        OfferedView::Accepted => Ok(ProgressView::Done),
        OfferedView::Full(command) => Ok(ProgressView::Wait(command)),
        OfferedView::Closed(_) => Err(closed_error()),
    }
}

/// The result of a call that has waited, by whether the channel took the command in the end.
pub open spec fn delivery(taken: bool) -> core::result::Result<(), ErrorView> {
    if taken {
        Ok(())
    } else {
        Err(wait_error())
    }
}

/// What a disconnect has to do, by the outcome of its claim to send `Disconnect`: to send it where
/// the claim was granted, nothing where the client is disconnected, and to wait where another task
/// has the claim.
pub open spec fn disconnect_step(claim: core::result::Result<u8, u8>) -> DisconnectStepView {
    match claim {
        Ok(_) => DisconnectStepView::Wait(StateView::Disconnect),
        Err(phase) => if phase >= DISCONNECTED {
            DisconnectStepView::Done
        } else {
            DisconnectStepView::Busy
        },
    }
}

/// The end of a disconnect, by whether the channel took the `Disconnect` command: whether the
/// client is disconnected now, and the result.
pub open spec fn disconnect_end(taken: bool) -> (bool, core::result::Result<(), ErrorView>) {
    (taken, delivery(taken))
}

/// Decides whether a call gets as far as the channel, from whether the client is disconnected.
pub fn check_phase(disconnected: bool, peer: &str) -> (result: Result<()>)
    ensures
        result_view(result) == admission(disconnected, peer@),
{
    if disconnected {
        Err(refuse(peer))
    } else {
        Ok(())
    }
}

/// The error of a call on a disconnected client.
pub(crate) fn refuse(peer: &str) -> (error: Error)
    ensures
        error@ == disconnected_error(peer@),
{
    let mut text = "Disconnect (peer: ".to_owned();
    text.append(peer);
    text.append(")");
    Error::SendError(text)
}

/// Decides the result of a call that does not wait, from what the channel says.
pub fn settle_at_once(outcome: Offered) -> (result: Result<()>)
    ensures
        result_view(result) == settled_at_once(outcome@),
{
    match outcome {
        Offered::Accepted => Ok(()),
        Offered::Full(_) => Err(Error::SendError("channel full".to_owned())),
        Offered::Closed(_) => Err(Error::SendError("channel closed".to_owned())),
    }
}

/// Decides the result of a call that waits where there is no room, from what the channel says.
pub fn settle_or_wait(outcome: Offered) -> (result: Result<Progress>)
    ensures
        progress_view(result) == settled_or_wait(outcome@),
{
    match outcome {
        Offered::Accepted => Ok(Progress::Done),
        Offered::Full(command) => Ok(Progress::Wait(command)),
        Offered::Closed(_) => Err(Error::SendError("channel closed".to_owned())),
    }
}

/// Decides the result of a call that has waited, from what the channel said in the end.
pub fn delivered(
    outcome: core::result::Result<(), async_channel::SendError<State>>,
) -> (result: Result<()>)
    ensures
        result_view(result) == delivery(outcome is Ok),
    opens_invariants none
{
    match outcome {
        Ok(()) => Ok(()),
        Err(error) => Err(Error::AsyncChannelError(send_error_text(&error))),
    }
}

/// Decides what a disconnect has to do, from the outcome of its claim to send `Disconnect`: `Ok`
/// where it was granted, and otherwise the phase that the client was in.
pub fn begin_disconnect(claim: core::result::Result<u8, u8>) -> (step: DisconnectStep)
    ensures
        step@ == disconnect_step(claim),
    opens_invariants none
{
    match claim {
        Ok(_) => DisconnectStep::Wait(State::Disconnect),
        Err(phase) => if phase >= DISCONNECTED {
            DisconnectStep::Done
        } else {
            DisconnectStep::Busy
        },
    }
}

/// Decides the end of a disconnect, from what the channel said of the `Disconnect` command: whether
/// the client is disconnected now, and the result.
pub fn settle_disconnect(
    outcome: core::result::Result<(), async_channel::SendError<State>>,
) -> (end: (bool, Result<()>))
    ensures
        (end.0, result_view(end.1)) == disconnect_end(outcome is Ok),
    opens_invariants none
{
    match delivered(outcome) {
        Ok(()) => (true, Ok(())),
        Err(error) => (false, Err(error)),
    }
}

/// A client of one connection, for a stream of type `Stream`.
///
/// All methods take `&self`, so that a client can be shared by any number of tasks.
pub struct TcpClient<Stream> {
    /// How far the client has come with disconnecting, so that `Disconnect` is sent only once.
    pub(crate) phase: Phase,
    /// Where the commands for the writer task go.
    pub(crate) sender: async_channel::Sender<State>,
    /// The address of the peer as text, for error messages.
    pub(crate) peer_addr: String,
    /// The client belongs to a stream without holding it.
    pub(crate) _ph: PhantomData<Stream>,
}

impl<Stream> TcpClient<Stream> {
    /// The commands that the client's channel accepts in the course of its life, in order.
    pub closed spec fn accepted(self) -> Seq<StateView> {
        accepted(self.sender)
    }

    /// The capacity of the client's channel.
    pub closed spec fn capacity(self) -> usize {
        capacity(self.sender)
    }

    /// The commands that the client's channel hands back for want of room.
    pub closed spec fn refused_full(self) -> Set<StateView> {
        refused_full(self.sender)
    }

    /// The commands that the client's channel hands back because it is closed.
    pub closed spec fn refused_closed(self) -> Set<StateView> {
        refused_closed(self.sender)
    }

    /// The phase that the client was created in.
    pub closed spec fn starts(self) -> u8 {
        self.phase.starts()
    }

    /// Whether the client is not disconnected at some time of its life.
    pub closed spec fn is_connected_once(self) -> bool {
        self.phase.is_connected_once()
    }

    /// Whether the client is disconnected at some time of its life.
    pub closed spec fn is_disconnected_once(self) -> bool {
        self.phase.is_disconnected_once()
    }

    /// Whether a task is sending `Disconnect` at some time of the client's life.
    pub closed spec fn is_disconnecting_once(self) -> bool {
        self.phase.is_disconnecting_once()
    }

    /// Whether a claim to send `Disconnect` is granted at some time of the client's life.
    pub closed spec fn grants_claim(self) -> bool {
        self.phase.grants_claim()
    }

    /// Whether a claim to send `Disconnect` is declined at some time of the client's life, as it is
    /// while another task has the claim.
    pub closed spec fn declines_claim(self) -> bool {
        self.phase.declines_claim()
    }

    /// Whether a claim to send `Disconnect` is given up at some time of the client's life, or is
    /// found not to stand when it is.
    pub closed spec fn ends_claim(self) -> bool {
        self.phase.ends_claim()
    }

    /// What is said of the client is said of its parts.
    pub(crate) proof fn lemma_parts(client: &TcpClient<Stream>)
        ensures
            client.is_connected_once() == client.phase.is_connected_once(),
            client.is_disconnected_once() == client.phase.is_disconnected_once(),
            client.is_disconnecting_once() == client.phase.is_disconnecting_once(),
            client.grants_claim() == client.phase.grants_claim(),
            client.declines_claim() == client.phase.declines_claim(),
            client.ends_claim() == client.phase.ends_claim(),
            client.accepted() == accepted(client.sender),
            client.refused_full() == refused_full(client.sender),
            client.refused_closed() == refused_closed(client.sender),
            client.peer() == client.peer_addr@,
    {
    }

    /// The address of the peer as text.
    pub closed spec fn peer(self) -> Seq<char> {
        self.peer_addr@
    }

    /// Makes a client of a channel that exists, connected or disconnected.
    pub fn from_parts(
        disconnected: bool,
        sender: async_channel::Sender<State>,
        peer_addr: String,
    ) -> (client: TcpClient<Stream>)
        ensures
            client.starts() == (if disconnected {
                DISCONNECTED
            } else {
                CONNECTED
            }),
            disconnected ==> client.is_disconnected_once(),
            !disconnected ==> client.is_connected_once(),
            client.accepted() == accepted(sender),
            client.refused_full() == refused_full(sender),
            client.refused_closed() == refused_closed(sender),
            client.capacity() == capacity(sender),
            client.peer() == peer_addr@,
        opens_invariants [ recording() ]
    {
        let mut trace = Trace::start();
        TcpClient::from_parts_traced(disconnected, sender, peer_addr, &mut trace)
    }

    /// [`TcpClient::from_parts`], with a trace: all that it does is to create the phase.
    pub(crate) fn from_parts_traced(
        disconnected: bool,
        sender: async_channel::Sender<State>,
        peer_addr: String,
        trace: &mut Trace,
    ) -> (client: TcpClient<Stream>)
        ensures
            client.starts() == (if disconnected {
                DISCONNECTED
            } else {
                CONNECTED
            }),
            disconnected ==> client.is_disconnected_once(),
            !disconnected ==> client.is_connected_once(),
            client.accepted() == accepted(sender),
            client.refused_full() == refused_full(sender),
            client.refused_closed() == refused_closed(sender),
            client.capacity() == capacity(sender),
            client.peer() == peer_addr@,
            final(trace)@ == old(trace)@.push(Access::Created(client.starts())),
            phase_in(final(trace)@) == Some(client.starts()),
            accepted_in(final(trace)@) == accepted_in(old(trace)@),
            moves_in(final(trace)@) == moves_in(old(trace)@),
        opens_invariants none
    {
        proof {
            law_new_client_is_untouched(old(trace)@, disconnected);
        }
        let start: u8 = if disconnected {
            DISCONNECTED
        } else {
            CONNECTED
        };
        TcpClient { phase: Phase::create(start, trace), sender, peer_addr, _ph: PhantomData }
    }

    /// Makes a connected client with a channel of its own, and the receiving end of the channel for
    /// the writer task.
    pub fn init(target: String) -> (parts: (TcpClient<Stream>, async_channel::Receiver<State>))
        ensures
            parts.0.starts() == CONNECTED,
            parts.0.is_connected_once(),
            parts.0.capacity() == CHANNEL_CAPACITY,
            parts.0.peer() == target@,
            deliverable(parts.1) == parts.0.accepted(),
            taken(parts.1) == Seq::<StateView>::empty(),
        opens_invariants [ recording() ]
    {
        let mut trace = Trace::start();
        TcpClient::init_traced(target, &mut trace)
    }

    /// [`TcpClient::init`], with a trace: the phase is created as connected and not touched again,
    /// and no command is offered to the channel.
    pub(crate) fn init_traced(target: String, trace: &mut Trace) -> (parts: (
        TcpClient<Stream>,
        async_channel::Receiver<State>,
    ))
        ensures
            parts.0.starts() == CONNECTED,
            parts.0.is_connected_once(),
            parts.0.capacity() == CHANNEL_CAPACITY,
            parts.0.peer() == target@,
            deliverable(parts.1) == parts.0.accepted(),
            taken(parts.1) == Seq::<StateView>::empty(),
            final(trace)@ == old(trace)@.push(Access::Created(CONNECTED)),
            phase_in(final(trace)@) == Some(CONNECTED),
            accepted_in(final(trace)@) == accepted_in(old(trace)@),
            moves_in(final(trace)@) == moves_in(old(trace)@),
        opens_invariants none
    {
        proof {
            law_new_client_is_untouched(old(trace)@, false);
        }
        let (sender, receiver) = bounded(CHANNEL_CAPACITY);
        (TcpClient::from_parts_traced(false, sender, target, trace), receiver)
    }

    /// The sending end of the client's channel, for sending a command by waiting.
    pub fn sender(&self) -> (sender: &async_channel::Sender<State>)
        ensures
            accepted(*sender) == self.accepted(),
            refused_full(*sender) == self.refused_full(),
            refused_closed(*sender) == self.refused_closed(),
            capacity(*sender) == self.capacity(),
        opens_invariants none
    {
        &self.sender
    }

    /// Fails if the client is disconnected.
    ///
    /// A client that is being disconnected may still pass: the channel refuses the command then,
    /// once the writer task has ended.
    pub fn check_disconnected(&self) -> (result: Result<()>)
        ensures
            match result_view(result) {
                Ok(()) => self.is_connected_once(),
                Err(error) => self.is_disconnected_once() && error == disconnected_error(
                    self.peer(),
                ),
            },
    {
        let mut trace = Trace::start();
        self.check_traced(&mut trace)
    }

    /// Starts to disconnect. Of several tasks that do so at once, one has to send a `Disconnect`
    /// command, and to give its outcome to [`TcpClient::finish_disconnect`]; the others have to wait
    /// until that has happened, and then to ask again, as it may have failed.
    ///
    /// Nothing is left to do only where the client was found disconnected, and there is something
    /// to wait for only where it was found in the middle of that.
    pub fn disconnect(&self) -> (step: DisconnectStep)
        ensures
            match step@ {
                DisconnectStepView::Done => self.is_disconnected_once(),
                DisconnectStepView::Busy => self.declines_claim() && self.is_disconnecting_once(),
                DisconnectStepView::Wait(command) => self.grants_claim() && command
                    == StateView::Disconnect,
            },
        opens_invariants [ recording(), claiming() ]
    {
        let mut trace = Trace::start();
        self.disconnect_traced(&mut trace)
    }

    /// Ends a disconnect, from what the channel said of the `Disconnect` command: where it took
    /// the command, the client is disconnected from now on. Where it did not, or where the command
    /// was never sent after all, another disconnect can be started.
    pub fn finish_disconnect(
        &self,
        outcome: core::result::Result<(), async_channel::SendError<State>>,
    ) -> (result: Result<()>)
        ensures
            result_view(result) == disconnect_end(outcome is Ok).1,
            disconnect_end(outcome is Ok).0 ==> self.is_disconnected_once(),
            !disconnect_end(outcome is Ok).0 ==> self.ends_claim(),
        opens_invariants
            [ recording(), if outcome is Ok {
                raising()
            } else {
                releasing()
            } ]
    {
        let mut trace = Trace::start();
        self.finish_disconnect_traced(outcome, &mut trace)
    }

    /// Sends data, a `Vec<u8>`, without waiting: fails where the channel has no room.
    #[allow(private_bounds)]
    pub fn try_send<B: Payload>(&self, buff: B) -> (result: Result<()>)
        ensures
            match result_view(result) {
                Ok(()) => self.is_connected_once() && self.accepted().contains(
                    StateView::Send(buff@),
                ),
                Err(error) => {
                    ||| self.is_disconnected_once() && error == disconnected_error(self.peer())
                    ||| self.is_connected_once() && error == full_error()
                        && self.refused_full().contains(StateView::Send(buff@))
                    ||| self.is_connected_once() && error == closed_error()
                        && self.refused_closed().contains(StateView::Send(buff@))
                },
            },
    {
        let mut trace = Trace::start();
        match self.send_traced(buff, false, false, &mut trace) {
            Ok(_) => Ok(()),
            Err(error) => Err(error),
        }
    }

    /// Offers a command other than `Disconnect` to the channel, for a call that waits where there is
    /// no room.
    fn offer(&self, command: State) -> (result: Result<Progress>)
        requires
            !(command@ is Disconnect),
        ensures
            self.offered(command@, progress_view(result)),
    {
        let mut trace = Trace::start();
        self.offer_traced(command, &mut trace)
    }

    /// What a call that waits where there is no room may come to: the channel took the command, or
    /// had no room for it, and the same command has to be sent by waiting, or the client is
    /// disconnected, or the channel is closed and handed the command back.
    pub open spec fn offered(
        self,
        command: StateView,
        result: core::result::Result<ProgressView, ErrorView>,
    ) -> bool {
        match result {
            Ok(ProgressView::Done) => self.is_connected_once() && self.accepted().contains(command),
            Ok(ProgressView::Wait(waiting)) => self.is_connected_once() && waiting == command
                && self.refused_full().contains(command),
            Err(error) => {
                ||| self.is_disconnected_once() && error == disconnected_error(self.peer())
                ||| self.is_connected_once() && error == closed_error()
                    && self.refused_closed().contains(command)
            },
        }
    }

    /// Sends data, a `Vec<u8>`, without flushing, which suits many small packets. For data that has
    /// to arrive soon there is [`TcpClient::send_all`].
    #[allow(private_bounds)]
    pub fn send<B: Payload>(&self, buff: B) -> (result: Result<Progress>)
        ensures
            self.offered(StateView::Send(buff@), progress_view(result)),
    {
        let mut trace = Trace::start();
        self.send_traced(buff, false, true, &mut trace)
    }

    /// Sends data, a `Vec<u8>`, and has it flushed at once, which suits requests that wait for a
    /// response.
    #[allow(private_bounds)]
    pub fn send_all<B: Payload>(&self, buff: B) -> (result: Result<Progress>)
        ensures
            self.offered(StateView::SendFlush(buff@), progress_view(result)),
    {
        let mut trace = Trace::start();
        self.send_traced(buff, true, true, &mut trace)
    }

    /// Has what was sent flushed, as after a series of [`TcpClient::send`].
    pub fn flush(&self) -> (result: Result<Progress>)
        ensures
            self.offered(StateView::Flush, progress_view(result)),
    {
        self.offer(State::Flush)
    }

    /// What [`TcpClient::check_disconnected`] answers is about the phase alone: it lets a call pass
    /// only on a client that is not disconnected at some time, and refuses it only on one that is.
    pub open spec fn check_answers_for_itself(client: &TcpClient<Stream>) -> bool {
        forall|result: Result<()>| #[trigger]
            call_ensures(TcpClient::<Stream>::check_disconnected, (client,), result) ==> (
            if result is Ok {
                client.is_connected_once()
            } else {
                client.is_disconnected_once()
            })
    }

    /// What the calls that have bytes to send report is about the command with these bytes: success
    /// only where the channel takes it, and a wait only where it hands it back. It is said for the
    /// payload [`Nothing`], and so without taking vectors for payloads.
    ///
    /// A contract that says this is about these calls, and none of them can depend on what has such
    /// a contract.
    pub open spec fn sends_answer_for_themselves() -> bool {
        &&& forall|client: &TcpClient<Stream>, buff: Nothing, result: Result<()>| #[trigger]
            call_ensures(TcpClient::<Stream>::try_send::<Nothing>, (client, buff), result) ==> (
            result is Ok ==> client.accepted().contains(StateView::Send(buff@)))
        &&& forall|client: &TcpClient<Stream>, buff: Nothing, result: Result<Progress>| #[trigger]
            call_ensures(TcpClient::<Stream>::send::<Nothing>, (client, buff), result)
                ==> client.offered(StateView::Send(buff@), progress_view(result))
        &&& forall|client: &TcpClient<Stream>, buff: Nothing, result: Result<Progress>| #[trigger]
            call_ensures(TcpClient::<Stream>::send_all::<Nothing>, (client, buff), result)
                ==> client.offered(StateView::SendFlush(buff@), progress_view(result))
    }

    /// The calls that have bytes to send answer for themselves, on every client.
    pub proof fn law_sends_answer_for_themselves()
        ensures
            TcpClient::<Stream>::sends_answer_for_themselves(),
    {
    }

    /// What the calls that are not disconnects report is what they did themselves: success only
    /// where the channel takes the command, and a wait only where it hands that command back.
    ///
    /// A contract that says this is about these calls, and none of them can depend on what has such
    /// a contract.
    pub open spec fn calls_answer_for_themselves(client: &TcpClient<Stream>) -> bool {
        &&& TcpClient::check_answers_for_itself(client)
        &&& forall|buff: Vec<u8>, result: Result<()>| #[trigger]
            call_ensures(TcpClient::<Stream>::try_send::<Vec<u8>>, (client, buff), result) ==> (
            result is Ok ==> client.accepted().contains(StateView::Send(buff@)))
        &&& forall|buff: Vec<u8>, result: Result<Progress>| #[trigger]
            call_ensures(TcpClient::<Stream>::send::<Vec<u8>>, (client, buff), result)
                ==> client.offered(StateView::Send(buff@), progress_view(result))
        &&& forall|buff: Vec<u8>, result: Result<Progress>| #[trigger]
            call_ensures(TcpClient::<Stream>::send_all::<Vec<u8>>, (client, buff), result)
                ==> client.offered(StateView::SendFlush(buff@), progress_view(result))
        &&& TcpClient::flush_answers_for_itself(client)
    }

    /// What [`TcpClient::flush`] reports is about the command to flush.
    pub open spec fn flush_answers_for_itself(client: &TcpClient<Stream>) -> bool {
        forall|result: Result<Progress>| #[trigger]
            call_ensures(TcpClient::<Stream>::flush, (client,), result) ==> client.offered(
                StateView::Flush,
                progress_view(result),
            )
    }

    /// The calls that are not disconnects answer for themselves, on every client.
    pub proof fn law_calls_answer_for_themselves(client: &TcpClient<Stream>)
        ensures
            TcpClient::calls_answer_for_themselves(client),
    {
    }
}

/// A client that has only been made is in the phase that it was made in: making it moves no phase and
/// has no command accepted.
pub proof fn law_new_client_is_untouched(before: Seq<Access>, disconnected: bool)
    ensures
        ({
            let start = if disconnected {
                DISCONNECTED
            } else {
                CONNECTED
            };
            let after = before.push(Access::Created(start));
            &&& phase_in(after) == Some(start)
            &&& creations_in(after) == creations_in(before).push(start)
            &&& accepted_in(after) == accepted_in(before)
            &&& moves_in(after) == moves_in(before)
        }),
{
    lemma_one_more(
        before,
        Access::Created(
            if disconnected {
                DISCONNECTED
            } else {
                CONNECTED
            },
        ),
    );
}

/// A call that does not wait succeeds exactly where the channel took the command. One that waits
/// differs only where there is no room: it then has the same command to send by waiting.
pub proof fn law_channel_decides(outcome: OfferedView)
    ensures
        settled_at_once(outcome) is Ok <==> outcome is Accepted,
        settled_or_wait(outcome) == Ok::<ProgressView, ErrorView>(ProgressView::Done)
            <==> outcome is Accepted,
        forall|command: StateView|
            #[trigger] settled_or_wait(outcome) == Ok::<ProgressView, ErrorView>(
                ProgressView::Wait(command),
            ) <==> outcome == OfferedView::Full(command),
        outcome is Full ==> settled_at_once(outcome) == Err::<(), ErrorView>(full_error()),
        outcome is Closed ==> settled_at_once(outcome) == Err::<(), ErrorView>(closed_error())
            && settled_or_wait(outcome) == Err::<ProgressView, ErrorView>(closed_error()),
{
}

/// A call is let through exactly where the client is not disconnected, and one that has waited
/// succeeds exactly where the channel took the command. A disconnect leaves the client disconnected
/// exactly where it succeeds.
pub proof fn law_decisions_are_exact(disconnected: bool, taken: bool, peer: Seq<char>)
    ensures
        admission(disconnected, peer) is Ok <==> !disconnected,
        admission(disconnected, peer) matches Err(error) ==> error == disconnected_error(peer),
        delivery(taken) is Ok <==> taken,
        delivery(taken) matches Err(error) ==> error == wait_error(),
        disconnect_end(taken).0 <==> taken,
        disconnect_end(taken).1 is Ok <==> taken,
        disconnect_end(taken).1 matches Err(error) ==> error == wait_error(),
{
}

/// The error of a call on a disconnected client names the peer, in full and in the same place for
/// every peer, and no two errors of a call are alike.
pub proof fn law_errors_tell_apart(peer: Seq<char>, other: Seq<char>)
    ensures
        match (disconnected_error(peer), disconnected_error(other)) {
            (ErrorView::SendError(text), ErrorView::SendError(like)) => {
                &&& text.len() == peer.len() + 19
                &&& text.take(18) == like.take(18)
                &&& text.subrange(18, text.len() - 1) == peer
                &&& text.last() == like.last()
            },
            _ => false,
        },
        disconnected_error(peer) == disconnected_error(other) ==> peer == other,
        disconnected_error(peer) != full_error(),
        disconnected_error(peer) != closed_error(),
        disconnected_error(peer) != wait_error(),
        full_error() != closed_error(),
        full_error() != wait_error(),
        closed_error() != wait_error(),
{
    reveal_strlit("Disconnect (peer: ");
    reveal_strlit(")");
    reveal_strlit("channel full");
    reveal_strlit("channel closed");
    let text = disconnected_error(peer)->SendError_0;
    let like = disconnected_error(other)->SendError_0;
    assert(text.take(18) =~= like.take(18));
    assert(text.subrange(18, text.len() - 1) =~= peer);
    assert(like.subrange(18, like.len() - 1) =~= other);
    assert(text[0] == 'D');
    assert(full_error()->SendError_0[0] == 'c');
    assert(closed_error()->SendError_0[0] == 'c');
    assert(full_error()->SendError_0.len() != closed_error()->SendError_0.len());
}

} // verus!
