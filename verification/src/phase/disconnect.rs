//! Disconnecting: the one call that moves the phase of a client.
use crate::client::trace::{
    accepted_in, claimed, claiming, creations_in, lemma_one_more, moves_in, raising, releasing,
    settled, Access, Trace,
};
use crate::client::{
    begin_disconnect, disconnect_end, disconnect_step, result_view, settle_disconnect,
    DisconnectStep, DisconnectStepView, TcpClient,
};
use crate::error::Result;
use crate::phase::{CONNECTED, DISCONNECTED, DISCONNECTING};
use crate::state::{State, StateView};
use vstd::prelude::*;

verus! {

impl<Stream> TcpClient<Stream> {
    /// [`TcpClient::disconnect`], with a trace: its one access to the client is a claim to send
    /// `Disconnect`, and what it found by that decides the step. It moves the phase only where the
    /// claim is granted.
    ///
    /// The calls that are not disconnects do not depend on this one, as its contract is about them:
    /// none of them can make it.
    pub(crate) fn disconnect_traced(&self, trace: &mut Trace) -> (step: DisconnectStep)
        ensures
            match step@ {
                DisconnectStepView::Done => self.is_disconnected_once(),
                DisconnectStepView::Busy => self.declines_claim() && self.is_disconnecting_once(),
                DisconnectStepView::Wait(command) => self.grants_claim() && command
                    == StateView::Disconnect,
            },
            exists|claim: core::result::Result<u8, u8>| #[trigger]
                claimed(old(trace)@, final(trace)@, claim) && step@ == disconnect_step(claim),
            accepted_in(final(trace)@) == accepted_in(old(trace)@),
            creations_in(final(trace)@) == creations_in(old(trace)@),
            moves_in(final(trace)@) == (if step@ is Wait {
                moves_in(old(trace)@).push((CONNECTED, DISCONNECTING))
            } else {
                moves_in(old(trace)@)
            }),
            TcpClient::calls_answer_for_themselves(self),
        opens_invariants [ claiming() ]
    {
        let claim = self.phase.claim(trace);
        proof {
            TcpClient::lemma_parts(self);
            TcpClient::law_calls_answer_for_themselves(self);
            lemma_one_more(
                old(trace)@,
                Access::Exchanged { current: CONNECTED, new: DISCONNECTING, claim },
            );
            law_disconnect_moves_by_claim(old(trace)@, trace@, claim);
        }
        assert(claimed(old(trace)@, trace@, claim));
        begin_disconnect(claim)
    }

    /// [`TcpClient::finish_disconnect`], with a trace: its one access to the client raises the phase
    /// where the channel took the command, and gives the claim up where it did not.
    ///
    /// The calls that are not disconnects do not depend on this one, as its contract is about them:
    /// none of them can make it.
    pub(crate) fn finish_disconnect_traced(
        &self,
        outcome: core::result::Result<(), async_channel::SendError<State>>,
        trace: &mut Trace,
    ) -> (result: Result<()>)
        ensures
            result_view(result) == disconnect_end(outcome is Ok).1,
            disconnect_end(outcome is Ok).0 ==> self.is_disconnected_once(),
            !disconnect_end(outcome is Ok).0 ==> self.ends_claim(),
            result is Ok <==> outcome is Ok,
            settled(old(trace)@, final(trace)@, outcome is Ok),
            accepted_in(final(trace)@) == accepted_in(old(trace)@),
            creations_in(final(trace)@) == creations_in(old(trace)@),
            TcpClient::calls_answer_for_themselves(self),
        opens_invariants
            [ if outcome is Ok {
                raising()
            } else {
                releasing()
            } ]
    {
        let ghost taken = outcome is Ok;
        let (disconnected, result) = settle_disconnect(outcome);
        if disconnected {
            let before: u8 = self.phase.close(trace);
            proof {
                lemma_one_more(old(trace)@, Access::Raised { before, value: DISCONNECTED });
            }
        } else {
            let claim = self.phase.release(trace);
            proof {
                lemma_one_more(
                    old(trace)@,
                    Access::Exchanged { current: DISCONNECTING, new: CONNECTED, claim },
                );
            }
        }
        proof {
            TcpClient::lemma_parts(self);
            TcpClient::law_calls_answer_for_themselves(self);
            law_disconnect_ends_by_outcome(old(trace)@, trace@, taken);
        }
        result
    }
}

/// A disconnect that has only started has nothing accepted, and moves the phase in one way and on one
/// condition: from connected, by a claim that is granted. It has nothing left to do only where what
/// it found was that the client is disconnected already.
pub proof fn law_disconnect_moves_by_claim(
    before: Seq<Access>,
    after: Seq<Access>,
    claim: core::result::Result<u8, u8>,
)
    requires
        claimed(before, after, claim),
    ensures
        accepted_in(after) == accepted_in(before),
        creations_in(after) == creations_in(before),
        moves_in(after) == (if disconnect_step(claim) is Wait {
            moves_in(before).push((CONNECTED, DISCONNECTING))
        } else {
            moves_in(before)
        }),
        disconnect_step(claim) is Done ==> exists|found: u8|
            found >= DISCONNECTED && claim == Err::<u8, u8>(found),
        disconnect_step(claim) is Busy ==> claim == Err::<u8, u8>(DISCONNECTING),
        disconnect_step(claim) matches DisconnectStepView::Wait(command) ==> command is Disconnect,
{
    if claim is Err {
        assert(claim == Err::<u8, u8>(claim->Err_0));
    }
}

/// The end of a disconnect moves the phase to disconnected only where the channel took the
/// `Disconnect` command, and back to connected only where it did not. It does so wherever it finds
/// the claim of that disconnect standing, so none is left behind.
pub proof fn law_disconnect_ends_by_outcome(before: Seq<Access>, after: Seq<Access>, taken: bool)
    requires
        settled(before, after, taken),
    ensures
        accepted_in(after) == accepted_in(before),
        creations_in(after) == creations_in(before),
        moves_in(after) == moves_in(before) || exists|moved: (u8, u8)|
            moves_in(after) == #[trigger] moves_in(before).push(moved) && if taken {
                moved.0 < moved.1 == DISCONNECTED
            } else {
                moved == (DISCONNECTING, CONNECTED)
            },
        taken ==> (after.last() matches Access::Raised { before: found, .. } && (found
            < DISCONNECTED ==> moves_in(after) == moves_in(before).push((found, DISCONNECTED)))),
        !taken ==> (after.last() matches Access::Exchanged { claim, .. } && (claim is Ok
            ==> moves_in(after) == moves_in(before).push((DISCONNECTING, CONNECTED)))),
{
    match after.last() {
        Access::Raised { before: found, value } => {
            if found < value {
                assert(moves_in(after) == moves_in(before).push((found, value)));
            }
        },
        Access::Exchanged { current, new, claim } => {
            if claim is Ok {
                assert(moves_in(after) == moves_in(before).push((current, new)));
            }
        },
        _ => {},
    }
}

} // verus!
