//! A call that is not a disconnect, as a whole: it reads the phase, offers its command to the
//! channel once, unless the client is disconnected, and makes a result of the answer.
//!
//! The methods of [`TcpClient`] for sending and flushing are such calls, with a trace of their own.
use crate::channel::{offer, Offered, OfferedView};
use crate::client::trace::{
    accepted_in, creations_in, entered, lemma_one_more, moves_in, offering, one_more, Access, Trace,
};
use crate::client::{
    check_phase, closed_error, disconnected_error, full_error, law_channel_decides,
    law_errors_tell_apart, progress_view, refuse, result_view, settle_at_once,
    settle_or_wait, settled_at_once, settled_or_wait, Progress, ProgressView, TcpClient,
};
use crate::error::{ErrorView, Result};
use crate::payload::Payload;
use crate::phase::DISCONNECTED;
use crate::state::{State, StateView};
use vstd::prelude::*;

verus! {

/// What the channel said, if a call was let through to it, as a mathematical value.
pub open spec fn answer_view(answer: Option<Offered>) -> Option<OfferedView> {
    match answer {
        None => None,
        Some(outcome) => Some(outcome@),
    }
}

/// The result of a call, from what the channel said, if it was let through to it. `waits` says
/// whether the call waits where there is no room.
pub open spec fn call_result(
    answer: Option<OfferedView>,
    waits: bool,
    peer: Seq<char>,
) -> core::result::Result<ProgressView, ErrorView> {
    match answer {
        None => Err(disconnected_error(peer)),
        Some(outcome) => if waits {
            settled_or_wait(outcome)
        } else {
            match settled_at_once(outcome) {
                Ok(()) => Ok(ProgressView::Done),
                Err(error) => Err(error),
            }
        },
    }
}

/// Whether a call that is not a disconnect went from the accesses `before` to the accesses `after`
/// when it had `command` to offer, and had `result`: the channel accepted the command once where
/// nothing is left to do, and nothing otherwise. The phase stays as it is.
pub open spec fn is_call(
    before: Seq<Access>,
    after: Seq<Access>,
    command: StateView,
    waits: bool,
    peer: Seq<char>,
    result: core::result::Result<ProgressView, ErrorView>,
) -> bool {
    &&& exists|answer: Option<OfferedView>| #[trigger]
        entered(before, after, command, answer) && result == call_result(answer, waits, peer)
    &&& accepted_in(after) == accepted_in(before) + (if result == Ok::<ProgressView, ErrorView>(
        ProgressView::Done,
    ) {
        seq![command]
    } else {
        Seq::empty()
    })
    &&& moves_in(after) == moves_in(before)
    &&& creations_in(after) == creations_in(before)
}

/// The command that has `data` sent.
pub open spec fn sending(data: Seq<u8>, flushes: bool) -> StateView {
    if flushes {
        StateView::SendFlush(data)
    } else {
        StateView::Send(data)
    }
}

/// What it takes to have the bytes of a payload.
pub(crate) struct Key(());

impl<Stream> TcpClient<Stream> {
    /// What a call may come to: the channel took the command, or it had no room for it, or the client
    /// is disconnected, or the channel is closed. Where there was no room, a call that waits has the
    /// same command to send by waiting, and one that does not fails.
    pub open spec fn answered(
        self,
        command: StateView,
        waits: bool,
        result: core::result::Result<ProgressView, ErrorView>,
    ) -> bool {
        match result {
            Ok(ProgressView::Done) => self.is_connected_once() && self.accepted().contains(command),
            Ok(ProgressView::Wait(waiting)) => waits && self.is_connected_once() && waiting
                == command && self.refused_full().contains(command),
            Err(error) => {
                ||| self.is_disconnected_once() && error == disconnected_error(self.peer())
                ||| !waits && self.is_connected_once() && error == full_error()
                    && self.refused_full().contains(command)
                ||| self.is_connected_once() && error == closed_error()
                    && self.refused_closed().contains(command)
            },
        }
    }

    /// [`TcpClient::check_disconnected`], with a trace: the phase is read once, and nothing else is
    /// done to the client. The call fails exactly where it is found disconnected.
    pub(crate) fn check_traced(&self, trace: &mut Trace) -> (result: Result<()>)
        ensures
            match result_view(result) {
                Ok(()) => self.is_connected_once(),
                Err(error) => self.is_disconnected_once() && error == disconnected_error(
                    self.peer(),
                ),
            },
            one_more(old(trace)@, final(trace)@),
            final(trace)@.last() matches Access::Read(found) && (result is Err <==> found
                >= DISCONNECTED),
            accepted_in(final(trace)@) == accepted_in(old(trace)@),
            moves_in(final(trace)@) == moves_in(old(trace)@),
            creations_in(final(trace)@) == creations_in(old(trace)@),
    {
        let value: u8 = self.phase.read(trace);
        proof {
            TcpClient::lemma_parts(self);
            lemma_one_more(old(trace)@, Access::Read(value));
        }
        check_phase(value >= DISCONNECTED, self.peer_addr.as_str())
    }

    /// Reads the phase, and offers a command other than `Disconnect` to the channel unless the
    /// client is disconnected. `None` says that it is, and otherwise the channel has answered.
    ///
    /// [`TcpClient::check_disconnected`] does not depend on this, as the contract is about it: it
    /// cannot offer anything.
    fn enter(&self, command: State, trace: &mut Trace) -> (answer: Option<Offered>)
        requires
            !(command@ is Disconnect),
        ensures
            match answer {
                None => self.is_disconnected_once(),
                Some(outcome) => self.is_connected_once() && match outcome@ {
                    OfferedView::Accepted => self.accepted().contains(command@),
                    OfferedView::Full(back) => back == command@ && self.refused_full().contains(
                        command@,
                    ),
                    OfferedView::Closed(back) => back == command@
                        && self.refused_closed().contains(command@),
                },
            },
            entered(old(trace)@, final(trace)@, command@, answer_view(answer)),
            TcpClient::check_answers_for_itself(self),
        opens_invariants [ offering(command@) ]
    {
        let ghost before = trace@;
        let value: u8 = self.phase.read(trace);
        proof {
            TcpClient::lemma_parts(self);
            lemma_one_more(before, Access::Read(value));
        }
        let ghost looked = trace@;
        if value >= DISCONNECTED {
            return None;
        }
        let ghost offered = command@;
        let outcome = offer(&self.sender, command, trace);
        proof {
            lemma_one_more(looked, Access::Offered { command: offered, outcome: outcome@ });
        }
        Some(outcome)
    }

    /// A call that is not a disconnect, with a trace. `waits` says whether it waits where there is
    /// no room.
    fn call_traced(
        &self,
        command: State,
        waits: bool,
        trace: &mut Trace,
    ) -> (result: Result<Progress>)
        requires
            !(command@ is Disconnect),
        ensures
            self.answered(command@, waits, progress_view(result)),
            is_call(
                old(trace)@,
                final(trace)@,
                command@,
                waits,
                self.peer(),
                progress_view(result),
            ),
    {
        let answer = self.enter(command, trace);
        let ghost said = answer_view(answer);
        proof {
            law_result_tells_what_was_done(
                old(trace)@,
                trace@,
                command@,
                said,
                waits,
                self.peer(),
            );
            law_call_offers_once(old(trace)@, trace@, command@, said);
            TcpClient::lemma_parts(self);
        }
        match answer {
            None => Err(refuse(self.peer_addr.as_str())),
            Some(outcome) => if waits {
                settle_or_wait(outcome)
            } else {
                match settle_at_once(outcome) {
                    Ok(()) => Ok(Progress::Done),
                    Err(error) => Err(error),
                }
            },
        }
    }

    /// A call that has bytes to send, with a trace. `flushes` says whether they are to be flushed.
    pub(crate) fn send_traced<B: Payload>(
        &self,
        buff: B,
        flushes: bool,
        waits: bool,
        trace: &mut Trace,
    ) -> (result: Result<Progress>)
        ensures
            self.answered(sending(buff@, flushes), waits, progress_view(result)),
            is_call(
                old(trace)@,
                final(trace)@,
                sending(buff@, flushes),
                waits,
                self.peer(),
                progress_view(result),
            ),
    {
        let data = buff.into_vec(Key(()));
        let command = if flushes {
            State::SendFlush(data)
        } else {
            State::Send(data)
        };
        self.call_traced(command, waits, trace)
    }

    /// A call that has no bytes to send, with a trace. It waits where there is no room.
    ///
    /// The calls that have bytes to send do not depend on this one, as its contract is about them:
    /// none of them can make it.
    pub(crate) fn offer_traced(&self, command: State, trace: &mut Trace) -> (result: Result<
        Progress,
    >)
        requires
            !(command@ is Disconnect),
        ensures
            self.offered(command@, progress_view(result)),
            is_call(
                old(trace)@,
                final(trace)@,
                command@,
                true,
                self.peer(),
                progress_view(result),
            ),
            TcpClient::<Stream>::sends_answer_for_themselves(),
    {
        proof {
            TcpClient::<Stream>::law_sends_answer_for_themselves();
        }
        self.call_traced(command, true, trace)
    }
}

/// A call that is not a disconnect has the channel accept at most one command, which is its own,
/// and never moves the phase. It accepts it exactly where the channel says so.
pub proof fn law_call_offers_once(
    before: Seq<Access>,
    after: Seq<Access>,
    command: StateView,
    answer: Option<OfferedView>,
)
    requires
        entered(before, after, command, answer),
    ensures
        accepted_in(after) == (if answer == Some(OfferedView::Accepted) {
            accepted_in(before).push(command)
        } else {
            accepted_in(before)
        }),
        moves_in(after) == moves_in(before),
        creations_in(after) == creations_in(before),
{
    reveal_with_fuel(accepted_in, 3);
    reveal_with_fuel(moves_in, 3);
    reveal_with_fuel(creations_in, 3);
}

/// The result of a call tells what it did. It ends with nothing left to do exactly where it had the
/// channel accept its command, and that once; otherwise it had nothing accepted. It is refused as on
/// a disconnected client exactly where the phase that it found on entry says so, and where it found
/// another one, its command was offered, and the result is what the channel said to it. It never moves
/// the phase.
pub proof fn law_result_tells_what_was_done(
    before: Seq<Access>,
    after: Seq<Access>,
    command: StateView,
    answer: Option<OfferedView>,
    waits: bool,
    peer: Seq<char>,
)
    requires
        entered(before, after, command, answer),
    ensures
        ({
            let result = call_result(answer, waits, peer);
            let found = after[before.len() as int];
            &&& accepted_in(after) == accepted_in(before) + (if result == Ok::<
                ProgressView,
                ErrorView,
            >(ProgressView::Done) {
                seq![command]
            } else {
                Seq::empty()
            })
            &&& moves_in(after) == moves_in(before)
            &&& found is Read
            &&& result == Err::<ProgressView, ErrorView>(disconnected_error(peer))
                <==> found->Read_0 >= DISCONNECTED
            &&& found->Read_0 < DISCONNECTED ==> exists|outcome: OfferedView|
                {
                    &&& after.last() == #[trigger] offered(command, outcome)
                    &&& waits ==> result == settled_or_wait(outcome)
                    &&& !waits ==> (result is Ok <==> settled_at_once(outcome) is Ok)
                    &&& !waits ==> (result is Err ==> settled_at_once(outcome) == Err::<
                        (),
                        ErrorView,
                    >(result->Err_0))
                }
        }),
{
    law_call_offers_once(before, after, command, answer);
    law_errors_tell_apart(peer, peer);
    if answer is Some {
        law_channel_decides(answer->0);
        assert(after.last() == offered(command, answer->0));
        assert(after.drop_last().last() == after[before.len() as int]);
        assert(accepted_in(before).push(command) =~= accepted_in(before) + seq![command]);
    }
    assert(accepted_in(before) + Seq::<StateView>::empty() =~= accepted_in(before));
}

/// The access by which a command was offered to the channel, which said `outcome`.
pub open spec fn offered(command: StateView, outcome: OfferedView) -> Access {
    Access::Offered { command, outcome }
}

} // verus!
