//! The bounded channel between a client and its writer task, which is `async_channel`'s.
//!
//! The sending end is shared: whether there is room depends on what other tasks did a moment ago.
//! So nothing here says what the channel holds at one time. What is said is said of the channel's
//! whole life: [`accepted`] and [`deliverable`] are the commands that it takes in at any time from
//! its creation until it is gone, in the order in which it takes them in. An end of a channel
//! stands for that one channel, and no two channels are alike, so these are fixed, if unknown.
//!
//! The receiving end belongs to the writer task alone, and [`taken`] says what [`try_recv`] has
//! handed out of it up to now.
use crate::client::trace::{offering, Access, Permit, Trace};
use crate::state::{State, StateView};
use vstd::prelude::*;

verus! {

/// How many commands a client's channel holds before a sender has to wait.
pub const CHANNEL_CAPACITY: usize = 4096;

/// `async_channel::Sender`, the sending end of a channel.
#[verifier::external_type_specification]
#[verifier::external_body]
#[verifier::reject_recursive_types(T)]
pub struct ExSender<T>(async_channel::Sender<T>);

/// `async_channel::Receiver`, the receiving end of a channel.
#[verifier::external_type_specification]
#[verifier::external_body]
#[verifier::reject_recursive_types(T)]
pub struct ExReceiver<T>(async_channel::Receiver<T>);

/// `async_channel::SendError`, which hands back a message that a closed channel refused.
#[verifier::external_type_specification]
#[verifier::external_body]
#[verifier::reject_recursive_types(T)]
pub struct ExSendError<T>(async_channel::SendError<T>);

/// The commands that the channel behind `sender` accepts in the course of its life, in the order
/// in which it takes them in.
pub uninterp spec fn accepted(sender: async_channel::Sender<State>) -> Seq<StateView>;

/// The capacity that the channel behind `sender` was created with.
pub uninterp spec fn capacity(sender: async_channel::Sender<State>) -> usize;

/// The commands that the channel behind `sender` hands back for want of room in the course of its
/// life.
pub uninterp spec fn refused_full(sender: async_channel::Sender<State>) -> Set<StateView>;

/// The commands that the channel behind `sender` hands back because it is closed in the course of
/// its life.
pub uninterp spec fn refused_closed(sender: async_channel::Sender<State>) -> Set<StateView>;

/// The commands that the channel behind `receiver` accepts in the course of its life, in order:
/// those that a receiver of it can be given.
pub uninterp spec fn deliverable(receiver: async_channel::Receiver<State>) -> Seq<StateView>;

/// The commands that [`try_recv`] has handed out of `receiver`, in order.
pub uninterp spec fn taken(receiver: async_channel::Receiver<State>) -> Seq<StateView>;

/// Whether a receiver of the channel behind `receiver` ever asks for a command when there is none.
pub uninterp spec fn found_empty(receiver: async_channel::Receiver<State>) -> bool;

/// Whether the commands `part` occur among the commands `whole` in the same order, possibly with
/// others in between.
pub open spec fn in_order(part: Seq<StateView>, whole: Seq<StateView>) -> bool
    decreases part.len(),
{
    part.len() == 0 || exists|k: int|
        0 <= k < whole.len() && #[trigger] whole[k] == part.last() && in_order(
            part.drop_last(),
            whole.take(k),
        )
}

/// Commands that occur in order among others, and are as many as those, are all of them.
pub proof fn lemma_in_order_all(part: Seq<StateView>, whole: Seq<StateView>)
    requires
        in_order(part, whole),
    ensures
        part.len() <= whole.len(),
        part.len() == whole.len() ==> part == whole,
    decreases part.len(),
{
    if part.len() > 0 {
        let k = choose|k: int|
            0 <= k < whole.len() && #[trigger] whole[k] == part.last() && in_order(
                part.drop_last(),
                whole.take(k),
            );
        lemma_in_order_all(part.drop_last(), whole.take(k));
        if part.len() == whole.len() {
            assert(part =~= part.drop_last().push(part.last()));
            assert(whole =~= whole.take(k).push(whole[k]));
        }
    }
}

/// What became of a command that was offered to the channel without waiting.
#[derive(Debug)]
pub enum Offered {
    /// The channel took it.
    Accepted,
    /// The channel is open, but has no room. The command is handed back.
    Full(State),
    /// The channel is closed. The command is handed back.
    Closed(State),
}

/// An [`Offered`] as a mathematical value.
#[verifier::ext_equal]
pub enum OfferedView {
    Accepted,
    Full(StateView),
    Closed(StateView),
}

impl View for Offered {
    type V = OfferedView;

    open spec fn view(&self) -> OfferedView {
        match self {
            Offered::Accepted => OfferedView::Accepted,
            Offered::Full(command) => OfferedView::Full(command@),
            Offered::Closed(command) => OfferedView::Closed(command@),
        }
    }
}

/// Calls `async_channel::bounded`.
///
/// Believed of it: the two ends belong to one channel, so that what the receiver can be given is
/// what the sender's channel accepts, the channel has the capacity asked for, and nothing has been
/// taken out of it. The function panics on a capacity of zero, and on one too large to allocate.
#[verifier::external_body]
pub(crate) fn bounded(cap: usize) -> (ends: (
    async_channel::Sender<State>,
    async_channel::Receiver<State>,
))
    requires
        0 < cap <= CHANNEL_CAPACITY,
    ensures
        capacity(ends.0) == cap,
        deliverable(ends.1) == accepted(ends.0),
        taken(ends.1) == Seq::<StateView>::empty(),
    opens_invariants none
{
    async_channel::bounded(cap)
}

/// Calls `async_channel::Sender::try_send`.
///
/// Believed of it: it does not wait, it reports success only for a command that the channel has
/// taken in, and on failure it hands back the command that it was given, for the reason that it
/// gives. Which of the three happens rests on what other tasks have done with the channel, and is
/// left open.
///
/// It is not for `Disconnect`, which a task sends by waiting, and only after it has claimed to. It
/// takes a permit, so that no command is offered but by the call whose trace holds that.
#[verifier::external_body]
fn try_send(
    _permit: Permit,
    sender: &async_channel::Sender<State>,
    command: State,
) -> (outcome: Offered)
    requires
        !(command@ is Disconnect),
    ensures
        outcome is Accepted ==> accepted(*sender).contains(command@),
        outcome matches Offered::Full(back) ==> back == command && refused_full(*sender).contains(
            command@,
        ),
        outcome matches Offered::Closed(back) ==> back == command && refused_closed(
            *sender,
        ).contains(command@),
    opens_invariants [ offering(command@) ]
{
    match sender.try_send(command) {
        Ok(()) => Offered::Accepted,
        Err(async_channel::TrySendError::Full(back)) => Offered::Full(back),
        Err(async_channel::TrySendError::Closed(back)) => Offered::Closed(back),
    }
}

/// Offers a command other than `Disconnect` to the channel.
pub(crate) fn offer(
    sender: &async_channel::Sender<State>,
    command: State,
    trace: &mut Trace,
) -> (outcome: Offered)
    requires
        !(command@ is Disconnect),
    ensures
        match outcome@ {
            OfferedView::Accepted => accepted(*sender).contains(command@),
            OfferedView::Full(back) => back == command@ && refused_full(*sender).contains(command@),
            OfferedView::Closed(back) => back == command@ && refused_closed(*sender).contains(
                command@,
            ),
        },
        final(trace)@ == old(trace)@.push(
            Access::Offered { command: command@, outcome: outcome@ },
        ),
    opens_invariants [ offering(command@) ]
{
    let ghost offered = command@;
    let permit = trace.attempt();
    let outcome = try_send(permit, sender, command);
    trace.conclude(Ghost(Access::Offered { command: offered, outcome: outcome@ }));
    outcome
}

/// Calls `async_channel::Receiver::try_recv`.
///
/// Believed of it: it does not wait, it takes one command at most, and gives out what it takes.
/// What it gives out by and by are commands that the channel had accepted, in the order in which
/// the channel accepted them; that none was left out in between is not said, as another receiver
/// or a waiting one may have had it. It gives out none only where there is none. Whether there is
/// one rests on what other tasks have done with the channel, and is left open. `None` stands for
/// both of its errors, an empty channel and one that is closed too.
#[verifier::external_body]
pub(crate) fn try_recv(receiver: &mut async_channel::Receiver<State>) -> (command: Option<State>)
    ensures
        deliverable(*final(receiver)) == deliverable(*old(receiver)),
        match command {
            Some(c) => {
                &&& taken(*final(receiver)) == taken(*old(receiver)).push(c@)
                &&& in_order(taken(*final(receiver)), deliverable(*final(receiver)))
            },
            None => {
                &&& taken(*final(receiver)) == taken(*old(receiver))
                &&& found_empty(*final(receiver))
            },
        },
{
    receiver.try_recv().ok()
}

/// Calls `to_string` on an `async_channel::SendError`.
///
/// Believed of it: the text is the same for every such error.
#[verifier::external_body]
pub(crate) fn send_error_text(error: &async_channel::SendError<State>) -> (text: String)
    ensures
        text@ == "sending into a closed channel"@,
    opens_invariants none
{
    error.to_string()
}

} // verus!
