//! What one call does to the client that it is made on.
//!
//! A client is shared, so what becomes of it says nothing about what one call has done. A [`Trace`]
//! does: every access to the phase and to the channel takes a [`Permit`] from the trace of the call
//! that it is part of, which holds an [`Access`] from then on. A trace is there for the proofs only,
//! and holds nothing when compiled.
//!
//! No invariants are opened anywhere in this library. The `opens_invariants` clauses serve to say
//! which accesses a function can make at all, directly or through another function: [`recording`],
//! [`claiming`], [`releasing`], [`raising`] and [`offering`] stand for one kind each. Only the methods
//! of a client that its users call start a trace. All that they do to the client is done for them by
//! functions that cannot, and so have no trace but the one that they were given.
use crate::channel::OfferedView;
use crate::phase::{CONNECTED, DISCONNECTED, DISCONNECTING};
use crate::state::StateView;
use vstd::prelude::*;

verus! {

/// Starting a trace.
pub open spec fn recording() -> int {
    0
}

/// Claiming to send `Disconnect`.
pub open spec fn claiming() -> int {
    1
}

/// Giving such a claim up.
pub open spec fn releasing() -> int {
    2
}

/// Raising the phase.
pub open spec fn raising() -> int {
    3
}

/// Offering a command of the same sort as `command` to the channel.
pub open spec fn offering(command: StateView) -> int {
    match command {
        StateView::Disconnect => 4,
        StateView::Send(_) => 5,
        StateView::SendFlush(_) => 6,
        StateView::Flush => 7,
    }
}

/// One access to the phase or to the channel, with what came of it.
#[verifier::ext_equal]
pub enum Access {
    /// An access is being made.
    Attempted,
    /// The phase was created with this value.
    Created(u8),
    /// The phase was read, and this value was found.
    Read(u8),
    /// The phase was to change from one value to another. `Ok` says that it did, and `Err` that
    /// another value was found.
    Exchanged { current: u8, new: u8, claim: core::result::Result<u8, u8> },
    /// The phase was raised to a value, from the one that was found.
    Raised { before: u8, value: u8 },
    /// A command was offered to the channel.
    Offered { command: StateView, outcome: OfferedView },
}

/// What one call has done up to now.
pub struct Trace {
    accesses: Ghost<Seq<Access>>,
}

impl View for Trace {
    type V = Seq<Access>;

    closed spec fn view(&self) -> Seq<Access> {
        self.accesses@
    }
}

impl Trace {
    /// Starts the trace of a call.
    pub(super) fn start() -> (trace: Trace)
        ensures
            trace@ == Seq::<Access>::empty(),
        opens_invariants [ recording() ]
    {
        Trace { accesses: Ghost(Seq::empty()) }
    }

    /// Adds an access that is about to be made, and gives the permit for it.
    pub(crate) fn attempt(&mut self) -> (permit: Permit)
        ensures
            final(self)@ == old(self)@.push(Access::Attempted),
        opens_invariants none
    {
        self.accesses = Ghost(self.accesses@.push(Access::Attempted));
        Permit(())
    }

    /// Says what came of the access that was added last.
    pub(crate) fn conclude(&mut self, Ghost(access): Ghost<Access>)
        requires
            old(self)@.len() > 0,
            old(self)@.last() is Attempted,
        ensures
            final(self)@ == old(self)@.drop_last().push(access),
        opens_invariants none
    {
        self.accesses = Ghost(self.accesses@.drop_last().push(access));
    }
}

/// The right to one access to the phase or to the channel. The functions that make an access take
/// one, and the only one to give any is a trace, which then holds the access.
pub(crate) struct Permit(());

/// The commands that the accesses had the channel accept, in order.
pub open spec fn accepted_in(accesses: Seq<Access>) -> Seq<StateView>
    decreases accesses.len(),
{
    if accesses.len() == 0 {
        Seq::empty()
    } else {
        let before = accepted_in(accesses.drop_last());
        match accesses.last() {
            Access::Offered { command, outcome: OfferedView::Accepted } => before.push(command),
            _ => before,
        }
    }
}

/// The changes that the accesses made to the phase, in order, each from one value to another.
pub open spec fn moves_in(accesses: Seq<Access>) -> Seq<(u8, u8)>
    decreases accesses.len(),
{
    if accesses.len() == 0 {
        Seq::empty()
    } else {
        let before = moves_in(accesses.drop_last());
        match accesses.last() {
            Access::Exchanged { current, new, claim: Ok(_) } => before.push((current, new)),
            Access::Raised { before: found, value } => if found < value {
                before.push((found, value))
            } else {
                before
            },
            _ => before,
        }
    }
}

/// The values that the accesses created phases with, in order.
pub open spec fn creations_in(accesses: Seq<Access>) -> Seq<u8>
    decreases accesses.len(),
{
    if accesses.len() == 0 {
        Seq::empty()
    } else {
        let before = creations_in(accesses.drop_last());
        match accesses.last() {
            Access::Created(value) => before.push(value),
            _ => before,
        }
    }
}

/// The value of a phase that nothing but the accesses has touched, from its creation on.
pub open spec fn phase_in(accesses: Seq<Access>) -> Option<u8>
    decreases accesses.len(),
{
    if accesses.len() == 0 {
        None
    } else {
        match accesses.last() {
            Access::Created(value) => Some(value),
            Access::Exchanged { new, claim: Ok(_), .. } => Some(new),
            Access::Raised { before, value } if before < value => Some(value),
            _ => phase_in(accesses.drop_last()),
        }
    }
}

/// Whether the accesses `after` are the accesses `before` and one more.
pub open spec fn one_more(before: Seq<Access>, after: Seq<Access>) -> bool {
    after.len() > 0 && after.drop_last() == before
}

/// Whether a call that is not a disconnect went from the accesses `before` to the accesses `after`
/// when it had `command` to offer. `None` says that it was refused, and otherwise the channel has
/// answered.
pub open spec fn entered(
    before: Seq<Access>,
    after: Seq<Access>,
    command: StateView,
    answer: Option<OfferedView>,
) -> bool {
    match answer {
        None => one_more(before, after) && (after.last() matches Access::Read(found) && found
            >= DISCONNECTED),
        Some(outcome) => {
            &&& one_more(after.drop_last(), after)
            &&& one_more(before, after.drop_last())
            &&& after.drop_last().last() matches Access::Read(found) && found < DISCONNECTED
            &&& after.last() == (Access::Offered { command, outcome })
        },
    }
}

/// Whether a disconnect that has only started went from the accesses `before` to the accesses
/// `after`, with `claim` for the outcome of its claim to send `Disconnect`.
pub open spec fn claimed(
    before: Seq<Access>,
    after: Seq<Access>,
    claim: core::result::Result<u8, u8>,
) -> bool {
    &&& one_more(before, after)
    &&& after.last() == (Access::Exchanged { current: CONNECTED, new: DISCONNECTING, claim })
    &&& claim matches Err(found) ==> found != CONNECTED
}

/// Whether the end of a disconnect went from the accesses `before` to the accesses `after`, by
/// whether the channel took the `Disconnect` command.
pub open spec fn settled(before: Seq<Access>, after: Seq<Access>, taken: bool) -> bool {
    &&& one_more(before, after)
    &&& match after.last() {
        Access::Raised { value, .. } => taken && value == DISCONNECTED,
        Access::Exchanged { current, new, .. } => !taken && current == DISCONNECTING && new
            == CONNECTED,
        _ => false,
    }
}

/// One more access adds what it did itself, and nothing else.
pub proof fn lemma_one_more(before: Seq<Access>, access: Access)
    ensures
        one_more(before, before.push(access)),
        accepted_in(before.push(access)) == (match access {
            Access::Offered { command, outcome: OfferedView::Accepted } => accepted_in(before).push(
                command,
            ),
            _ => accepted_in(before),
        }),
        moves_in(before.push(access)) == (match access {
            Access::Exchanged { current, new, claim: Ok(_) } => moves_in(before).push(
                (current, new),
            ),
            Access::Raised { before: found, value } if found < value => moves_in(before).push(
                (found, value),
            ),
            _ => moves_in(before),
        }),
        creations_in(before.push(access)) == (match access {
            Access::Created(value) => creations_in(before).push(value),
            _ => creations_in(before),
        }),
{
    assert(before.push(access).drop_last() =~= before);
}

} // verus!
