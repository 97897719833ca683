//! Calls on one client by any number of tasks at once, and what holds of any such run.
//!
//! A call is made up of a few [`Act`]s, each of which is one access to the phase or to the channel.
//! The acts of different tasks come in any order; those of one task come in the order of its calls.
//! A run is a series of acts with the task that each is by.
use crate::client::trace::{accepted_in, lemma_one_more, moves_in, Access};
use crate::client::{
    admission, delivery, disconnect_end, disconnect_step, disconnected_error, settled_at_once,
    settled_or_wait, DisconnectStepView, ProgressView,
};
use crate::error::ErrorView;
use crate::phase::{CONNECTED, DISCONNECTED, DISCONNECTING};
use crate::session::{
    claim_outcome, command_of, law_all_accepted_reaches_wire, offer_outcome, received_all, Call,
    Room,
};
use crate::state::StateView;
use crate::wire::{
    command_marks, law_commands_stand_together, marks, offset, performed, step_after, WriterEvent,
};
use vstd::prelude::*;

verus! {

/// What a task is in the middle of.
pub enum Doing {
    /// Nothing: its next call can start.
    Nothing,
    /// A call that was let through and has the command to offer. `waits` says whether the call
    /// waits where there is no room.
    Offering { command: StateView, waits: bool },
    /// A call that waits until the channel takes the command.
    Waiting(StateView),
    /// A disconnect that waits for that of another task to end.
    Blocked,
    /// A disconnect that has claimed to send `Disconnect`, and waits until the channel takes it.
    Disconnecting,
    /// A disconnect that knows whether the channel took `Disconnect`.
    Settling { taken: bool },
}

/// One access to the phase or to the channel.
pub enum Act {
    /// Starts a call, by looking at the phase.
    Start(Call),
    /// Claims to send `Disconnect` once more.
    Retry,
    /// Offers the command to the channel, which says whether it has room.
    Offer(Room),
    /// Waits for the channel, which takes the command in the end or is closed.
    Wait { taken: bool },
    /// Moves the phase at the end of a disconnect.
    Settle,
}

/// A client in the middle of calls.
pub struct Crowd {
    /// How far the client has come with disconnecting.
    pub phase: u8,
    /// The commands that the channel has accepted, in order, each with the task that sent it.
    pub accepted: Seq<(nat, StateView)>,
    /// What each task is in the middle of.
    pub doing: spec_fn(nat) -> Doing,
}

impl Crowd {
    /// A client that no call has been made on.
    pub open spec fn fresh() -> Crowd {
        Crowd { phase: CONNECTED, accepted: Seq::empty(), doing: |task: nat| Doing::Nothing }
    }

    /// The client with `task` in the middle of something else.
    pub open spec fn with(self, task: nat, now: Doing) -> Crowd {
        Crowd {
            doing: |t: nat|
                if t == task {
                    now
                } else {
                    (self.doing)(t)
                },
            ..self
        }
    }

    /// The client with one more accepted command.
    pub open spec fn accepting(self, task: nat, command: StateView) -> Crowd {
        Crowd { accepted: self.accepted.push((task, command)), ..self }
    }

    /// Whether the task can act so now.
    pub open spec fn can(self, task: nat, act: Act) -> bool {
        match (self.doing)(task) {
            Doing::Nothing => act is Start,
            Doing::Blocked => act is Retry,
            Doing::Offering { .. } => act is Offer,
            Doing::Waiting(_) => act is Wait,
            Doing::Disconnecting => act is Wait,
            Doing::Settling { .. } => act is Settle,
        }
    }

    /// The claim of a task to send `Disconnect`.
    pub open spec fn claim(self, task: nat) -> Crowd {
        match disconnect_step(claim_outcome(self.phase)) {
            DisconnectStepView::Done => self.with(task, Doing::Nothing),
            DisconnectStepView::Busy => self.with(task, Doing::Blocked),
            DisconnectStepView::Wait(_) => Crowd {
                phase: DISCONNECTING,
                ..self.with(task, Doing::Disconnecting)
            },
        }
    }

    /// The start of a call.
    pub open spec fn start(self, task: nat, call: Call, peer: Seq<char>) -> Crowd {
        if call is Disconnect {
            self.claim(task)
        } else {
            match admission(self.phase >= DISCONNECTED, peer) {
                Err(_) => self,
                Ok(()) => self.with(
                    task,
                    Doing::Offering { command: command_of(call), waits: !(call is TrySend) },
                ),
            }
        }
    }

    /// The offer of a command.
    pub open spec fn offer(self, task: nat, command: StateView, waits: bool, room: Room) -> Crowd {
        let outcome = offer_outcome(room, command);
        let next = self.with(
            task,
            match settled_or_wait(outcome) {
                Ok(ProgressView::Wait(waiting)) if waits => Doing::Waiting(waiting),
                _ => Doing::Nothing,
            },
        );
        if outcome is Accepted {
            next.accepting(task, command)
        } else {
            next
        }
    }

    /// What an act makes of the client.
    pub open spec fn act(self, task: nat, act: Act, peer: Seq<char>) -> Crowd {
        match ((self.doing)(task), act) {
            (Doing::Nothing, Act::Start(call)) => self.start(task, call, peer),
            (Doing::Blocked, Act::Retry) => self.claim(task),
            (Doing::Offering { command, waits }, Act::Offer(room)) => self.offer(
                task,
                command,
                waits,
                room,
            ),
            (Doing::Waiting(command), Act::Wait { taken }) => {
                let next = self.with(task, Doing::Nothing);
                if taken {
                    next.accepting(task, command)
                } else {
                    next
                }
            },
            (Doing::Disconnecting, Act::Wait { taken }) => {
                let next = self.with(task, Doing::Settling { taken });
                if taken {
                    next.accepting(task, StateView::Disconnect)
                } else {
                    next
                }
            },
            (Doing::Settling { taken }, Act::Settle) => Crowd {
                phase: if disconnect_end(taken).0 {
                    DISCONNECTED
                } else {
                    CONNECTED
                },
                ..self.with(task, Doing::Nothing)
            },
            _ => self,
        }
    }
}

/// The client after a run of acts on a fresh one.
pub open spec fn crowd_after(peer: Seq<char>, acts: Seq<(nat, Act)>) -> Crowd
    decreases acts.len(),
{
    if acts.len() == 0 {
        Crowd::fresh()
    } else {
        crowd_after(peer, acts.drop_last()).act(acts.last().0, acts.last().1, peer)
    }
}

/// Whether `acts` can be a run: each act is one that its task can do at that point.
pub open spec fn is_crowd_run(peer: Seq<char>, acts: Seq<(nat, Act)>) -> bool
    decreases acts.len(),
{
    acts.len() == 0 || {
        &&& is_crowd_run(peer, acts.drop_last())
        &&& crowd_after(peer, acts.drop_last()).can(acts.last().0, acts.last().1)
    }
}

/// Whether a `Disconnect` has been accepted.
pub open spec fn has_disconnect(accepted: Seq<(nat, StateView)>) -> bool {
    exists|i: int| 0 <= i < accepted.len() && (#[trigger] accepted[i]).1 is Disconnect
}

/// Whether no two `Disconnect`s have been accepted.
pub open spec fn one_disconnect_at_most(accepted: Seq<(nat, StateView)>) -> bool {
    forall|i: int, j: int|
        0 <= i < accepted.len() && 0 <= j < accepted.len() && (
        #[trigger] accepted[i]).1 is Disconnect && (#[trigger] accepted[j]).1 is Disconnect ==> i
            == j
}

/// Whether a task is in the middle of a disconnect that it claimed.
spec fn claims(doing: Doing) -> bool {
    doing is Disconnecting || doing is Settling
}

/// What holds at all times.
spec fn inv(crowd: Crowd) -> bool {
    &&& one_disconnect_at_most(crowd.accepted)
    &&& forall|s: nat, t: nat|
        claims(#[trigger] (crowd.doing)(s)) && claims(#[trigger] (crowd.doing)(t)) ==> s == t
    &&& forall|t: nat| claims(#[trigger] (crowd.doing)(t)) ==> crowd.phase == DISCONNECTING
    &&& forall|t: nat|
        match #[trigger] (crowd.doing)(t) {
            Doing::Offering { command, .. } => !(command is Disconnect),
            Doing::Waiting(command) => !(command is Disconnect),
            Doing::Disconnecting => !has_disconnect(crowd.accepted),
            Doing::Settling { taken } => taken == has_disconnect(crowd.accepted),
            _ => true,
        }
    &&& crowd.phase == CONNECTED ==> !has_disconnect(crowd.accepted)
    &&& crowd.phase == DISCONNECTED ==> has_disconnect(crowd.accepted)
    &&& crowd.phase == DISCONNECTING ==> exists|t: nat| claims(#[trigger] (crowd.doing)(t))
    &&& crowd.phase <= DISCONNECTED
}

proof fn lemma_accepting(accepted: Seq<(nat, StateView)>, one: (nat, StateView))
    requires
        one_disconnect_at_most(accepted),
        one.1 is Disconnect ==> !has_disconnect(accepted),
    ensures
        one_disconnect_at_most(accepted.push(one)),
        has_disconnect(accepted.push(one)) <==> has_disconnect(accepted) || one.1 is Disconnect,
{
    let longer = accepted.push(one);
    if has_disconnect(accepted) {
        let i = choose|i: int| 0 <= i < accepted.len() && (#[trigger] accepted[i]).1 is Disconnect;
        assert(longer[i].1 is Disconnect);
    }
    if one.1 is Disconnect {
        assert(longer[accepted.len() as int].1 is Disconnect);
    }
    if has_disconnect(longer) && !(one.1 is Disconnect) {
        let i = choose|i: int| 0 <= i < longer.len() && (#[trigger] longer[i]).1 is Disconnect;
        assert(accepted[i].1 is Disconnect);
    }
    assert forall|i: int, j: int|
        0 <= i < longer.len() && 0 <= j < longer.len() && (#[trigger] longer[i]).1 is Disconnect && (
        #[trigger] longer[j]).1 is Disconnect implies i == j by {
        if i < accepted.len() {
            assert(accepted[i].1 is Disconnect);
        }
        if j < accepted.len() {
            assert(accepted[j].1 is Disconnect);
        }
    }
}

proof fn lemma_act_keeps_inv(crowd: Crowd, task: nat, act: Act, peer: Seq<char>)
    requires
        inv(crowd),
        crowd.can(task, act),
    ensures
        inv(crowd.act(task, act, peer)),
{
    let next = crowd.act(task, act, peer);
    let doing = (crowd.doing)(task);
    if next.accepted.len() > crowd.accepted.len() {
        lemma_accepting(crowd.accepted, next.accepted.last());
        assert(next.accepted =~= crowd.accepted.push(next.accepted.last()));
    } else {
        assert(next.accepted == crowd.accepted);
    }
    assert(forall|t: nat| t != task ==> #[trigger] (next.doing)(t) == (crowd.doing)(t));
    if claims(doing) {
        assert(forall|t: nat| t != task ==> !claims(#[trigger] (next.doing)(t)));
    }
    if next.phase == DISCONNECTING {
        if crowd.phase == DISCONNECTING {
            let t = choose|t: nat| claims(#[trigger] (crowd.doing)(t));
            if t == task {
                assert(claims((next.doing)(task)));
            } else {
                assert(claims((next.doing)(t)));
            }
        } else {
            assert(claims((next.doing)(task)));
        }
    }
}

proof fn lemma_inv(peer: Seq<char>, acts: Seq<(nat, Act)>)
    requires
        is_crowd_run(peer, acts),
    ensures
        inv(crowd_after(peer, acts)),
    decreases acts.len(),
{
    if acts.len() > 0 {
        lemma_inv(peer, acts.drop_last());
        lemma_act_keeps_inv(
            crowd_after(peer, acts.drop_last()),
            acts.last().0,
            acts.last().1,
            peer,
        );
    }
}

/// However many tasks disconnect, and however their calls overlap, the channel accepts at most one
/// `Disconnect`. It has accepted one where the client is disconnected, and none where no task has
/// begun to disconnect.
pub proof fn law_one_disconnect_at_most(peer: Seq<char>, acts: Seq<(nat, Act)>)
    requires
        is_crowd_run(peer, acts),
    ensures
        one_disconnect_at_most(crowd_after(peer, acts).accepted),
        crowd_after(peer, acts).phase == DISCONNECTED ==> has_disconnect(
            crowd_after(peer, acts).accepted,
        ),
        crowd_after(peer, acts).phase == CONNECTED ==> !has_disconnect(
            crowd_after(peer, acts).accepted,
        ),
{
    lemma_inv(peer, acts);
}

/// Where at least one task disconnects and the channel is open throughout, exactly one `Disconnect`
/// has been accepted once all calls have ended, however they overlapped.
pub proof fn law_concurrent_disconnects_send_one(peer: Seq<char>, acts: Seq<(nat, Act)>)
    requires
        is_crowd_run(peer, acts),
        exists|i: int| 0 <= i < acts.len() && #[trigger] acts[i].1 == Act::Start(Call::Disconnect),
        forall|i: int|
            0 <= i < acts.len() ==> #[trigger] acts[i].1 != (Act::Wait { taken: false }),
        forall|t: nat| #[trigger] (crowd_after(peer, acts).doing)(t) is Nothing,
    ensures
        has_disconnect(crowd_after(peer, acts).accepted),
        one_disconnect_at_most(crowd_after(peer, acts).accepted),
        crowd_after(peer, acts).phase == DISCONNECTED,
{
    lemma_inv(peer, acts);
    lemma_disconnect_started(peer, acts);
}

/// Once a disconnect was started on an open channel, the client is never connected again.
proof fn lemma_disconnect_started(peer: Seq<char>, acts: Seq<(nat, Act)>)
    requires
        is_crowd_run(peer, acts),
        forall|i: int|
            0 <= i < acts.len() ==> #[trigger] acts[i].1 != (Act::Wait { taken: false }),
    ensures
        (exists|i: int|
            0 <= i < acts.len() && #[trigger] acts[i].1 == Act::Start(Call::Disconnect))
            ==> crowd_after(peer, acts).phase != CONNECTED,
        forall|t: nat|
            #[trigger] (crowd_after(peer, acts).doing)(t) != (Doing::Settling { taken: false }),
    decreases acts.len(),
{
    if acts.len() > 0 {
        let before = acts.drop_last();
        assert forall|i: int| 0 <= i < before.len() implies #[trigger] before[i].1 != (Act::Wait {
            taken: false,
        }) by {
            assert(before[i] == acts[i]);
        }
        lemma_disconnect_started(peer, before);
        assert(acts[acts.len() - 1].1 != (Act::Wait { taken: false }));
        if exists|i: int|
            0 <= i < acts.len() && #[trigger] acts[i].1 == Act::Start(Call::Disconnect) {
            let i = choose|i: int|
                0 <= i < acts.len() && #[trigger] acts[i].1 == Act::Start(Call::Disconnect);
            if i < before.len() {
                assert(before[i].1 == Act::Start(Call::Disconnect));
            }
        }
    }
}

/// Whether a disconnect of the task ends in success with this act.
pub open spec fn ends_disconnect(crowd: Crowd, task: nat, act: Act) -> bool {
    match ((crowd.doing)(task), act) {
        (Doing::Nothing, Act::Start(Call::Disconnect)) => disconnect_step(
            claim_outcome(crowd.phase),
        ) is Done,
        (Doing::Blocked, Act::Retry) => disconnect_step(claim_outcome(crowd.phase)) is Done,
        (Doing::Settling { taken }, Act::Settle) => disconnect_end(taken).1 is Ok,
        _ => false,
    }
}

/// A beginning of a run is a run.
proof fn lemma_beginning_is_run(peer: Seq<char>, acts: Seq<(nat, Act)>, more: Seq<(nat, Act)>)
    requires
        is_crowd_run(peer, acts + more),
    ensures
        is_crowd_run(peer, acts),
    decreases more.len(),
{
    if more.len() == 0 {
        assert(acts + more =~= acts);
    } else {
        assert((acts + more).drop_last() =~= acts + more.drop_last());
        lemma_beginning_is_run(peer, acts, more.drop_last());
    }
}

/// A client that is disconnected stays so, whatever any task does.
pub proof fn law_disconnected_is_final(
    peer: Seq<char>,
    acts: Seq<(nat, Act)>,
    more: Seq<(nat, Act)>,
)
    requires
        is_crowd_run(peer, acts + more),
        crowd_after(peer, acts).phase == DISCONNECTED,
    ensures
        crowd_after(peer, acts + more).phase == DISCONNECTED,
    decreases more.len(),
{
    if more.len() == 0 {
        assert(acts + more =~= acts);
    } else {
        let before = acts + more.drop_last();
        assert((acts + more).drop_last() =~= before);
        assert((acts + more).last() == more.last());
        law_disconnected_is_final(peer, acts, more.drop_last());
        lemma_inv(peer, before);
        assert(!claims((crowd_after(peer, before).doing)(more.last().0)));
    }
}

/// A disconnect that ends in success leaves the client disconnected, however the calls of other
/// tasks overlap with it: the client is disconnected then and at all times after that. From then on
/// no call is let through, and the start of one changes nothing; a further disconnect ends at once,
/// in success.
pub proof fn law_successful_disconnect_is_final(
    peer: Seq<char>,
    acts: Seq<(nat, Act)>,
    more: Seq<(nat, Act)>,
    task: nat,
    call: Call,
)
    requires
        acts.len() > 0,
        ends_disconnect(
            crowd_after(peer, acts.drop_last()),
            acts.last().0,
            acts.last().1,
        ),
        is_crowd_run(peer, acts + more),
        (crowd_after(peer, acts + more).doing)(task) is Nothing,
    ensures
        crowd_after(peer, acts).phase == DISCONNECTED,
        crowd_after(peer, acts + more).phase == DISCONNECTED,
        ({
            let crowd = crowd_after(peer, acts + more);
            let next = crowd.act(task, Act::Start(call), peer);
            &&& next.phase == crowd.phase
            &&& next.accepted == crowd.accepted
            &&& forall|t: nat| #[trigger] (next.doing)(t) == (crowd.doing)(t)
            &&& !(call is Disconnect) ==> admission(crowd.phase >= DISCONNECTED, peer) == Err::<
                (),
                ErrorView,
            >(disconnected_error(peer))
            &&& call is Disconnect ==> ends_disconnect(crowd, task, Act::Start(call))
        }),
{
    lemma_beginning_is_run(peer, acts, more);
    lemma_inv(peer, acts.drop_last());
    law_disconnected_is_final(peer, acts, more);
}

/// The command whose call ends in success with this act, for a call other than a disconnect.
pub open spec fn succeeds(crowd: Crowd, task: nat, act: Act) -> Option<StateView> {
    match ((crowd.doing)(task), act) {
        (Doing::Offering { command, waits }, Act::Offer(room)) => {
            let outcome = offer_outcome(room, command);
            let ok = if waits {
                settled_or_wait(outcome) == Ok::<ProgressView, ErrorView>(ProgressView::Done)
            } else {
                settled_at_once(outcome) is Ok
            };
            if ok {
                Some(command)
            } else {
                None
            }
        },
        (Doing::Waiting(command), Act::Wait { taken }) => if delivery(taken) is Ok {
            Some(command)
        } else {
            None
        },
        _ => None,
    }
}

/// The commands of the calls of `task` that succeeded, in the order of the calls, without
/// disconnects.
pub open spec fn succeeded(peer: Seq<char>, acts: Seq<(nat, Act)>, task: nat) -> Seq<StateView>
    decreases acts.len(),
{
    if acts.len() == 0 {
        Seq::empty()
    } else {
        let before = succeeded(peer, acts.drop_last(), task);
        match succeeds(crowd_after(peer, acts.drop_last()), acts.last().0, acts.last().1) {
            Some(command) if acts.last().0 == task => before.push(command),
            _ => before,
        }
    }
}

/// The accepted commands of `task`, in the order in which they were accepted, without `Disconnect`.
pub open spec fn accepted_of(accepted: Seq<(nat, StateView)>, task: nat) -> Seq<StateView>
    decreases accepted.len(),
{
    if accepted.len() == 0 {
        Seq::empty()
    } else {
        let before = accepted_of(accepted.drop_last(), task);
        if accepted.last().0 == task && !(accepted.last().1 is Disconnect) {
            before.push(accepted.last().1)
        } else {
            before
        }
    }
}

/// However the calls of different tasks overlap, of each task exactly the commands of the calls
/// that succeeded are accepted, each once and in the order of the calls.
pub proof fn law_tasks_keep_their_order(peer: Seq<char>, acts: Seq<(nat, Act)>, task: nat)
    requires
        is_crowd_run(peer, acts),
    ensures
        accepted_of(crowd_after(peer, acts).accepted, task) == succeeded(peer, acts, task),
    decreases acts.len(),
{
    if acts.len() > 0 {
        let before = acts.drop_last();
        law_tasks_keep_their_order(peer, before, task);
        lemma_inv(peer, before);
        let crowd = crowd_after(peer, before);
        let next = crowd_after(peer, acts);
        if next.accepted.len() > crowd.accepted.len() {
            assert(next.accepted.drop_last() =~= crowd.accepted);
        }
    }
}

/// However the calls of different tasks overlap, once the writer has received all that was accepted
/// and is back at waiting, the wire holds what the accepted commands ask for, one after the other:
/// what each of them asks for stands together, and stands once.
pub proof fn law_crowd_reaches_wire(
    peer: Seq<char>,
    acts: Seq<(nat, Act)>,
    events: Seq<WriterEvent>,
    i: int,
)
    requires
        is_crowd_run(peer, acts),
        received_all(
            events,
            crowd_after(peer, acts).accepted.map_values(|sent: (nat, StateView)| sent.1),
        ),
        step_after(events) is Receive,
        0 <= i < crowd_after(peer, acts).accepted.len(),
    ensures
        ({
            let accepted = crowd_after(peer, acts).accepted;
            let commands = accepted.map_values(|sent: (nat, StateView)| sent.1);
            &&& performed(events) == marks(commands)
            &&& 0 <= offset(commands, i) <= offset(commands, i + 1) <= performed(events).len()
            &&& performed(events).subrange(offset(commands, i), offset(commands, i + 1))
                == command_marks(accepted[i].1)
        }),
{
    let commands = crowd_after(peer, acts).accepted.map_values(|sent: (nat, StateView)| sent.1);
    law_all_accepted_reaches_wire(commands, events);
    law_commands_stand_together(commands, i);
}

/// The access to the phase or to the channel that an act is, with what comes of it, where it is one
/// that the methods of a client make. Waiting for the channel is not.
pub open spec fn access_of(crowd: Crowd, task: nat, act: Act) -> Option<Access> {
    match ((crowd.doing)(task), act) {
        (Doing::Nothing, Act::Start(call)) => if call is Disconnect {
            Some(exchange_on(crowd, CONNECTED, DISCONNECTING))
        } else {
            Some(Access::Read(crowd.phase))
        },
        (Doing::Blocked, Act::Retry) => Some(exchange_on(crowd, CONNECTED, DISCONNECTING)),
        (Doing::Offering { command, .. }, Act::Offer(room)) => Some(
            Access::Offered { command, outcome: offer_outcome(room, command) },
        ),
        (Doing::Settling { taken }, Act::Settle) => Some(
            if taken {
                Access::Raised { before: crowd.phase, value: DISCONNECTED }
            } else {
                exchange_on(crowd, DISCONNECTING, CONNECTED)
            },
        ),
        _ => None,
    }
}

/// A change of the phase from one value to another, as it comes out on the client.
pub open spec fn exchange_on(crowd: Crowd, current: u8, new: u8) -> Access {
    Access::Exchanged {
        current,
        new,
        claim: if crowd.phase == current {
            Ok(current)
        } else {
            Err(crowd.phase)
        },
    }
}

/// What an act makes of the client is what the access makes of it: the phase moves where the access
/// moves it, and the channel accepts what the access has it accept.
pub proof fn law_acts_are_accesses(peer: Seq<char>, acts: Seq<(nat, Act)>, task: nat, act: Act)
    requires
        is_crowd_run(peer, acts),
        crowd_after(peer, acts).can(task, act),
    ensures
        ({
            let before = crowd_after(peer, acts);
            let after = before.act(task, act, peer);
            match access_of(before, task, act) {
                None => act is Wait && after.phase == before.phase,
                Some(access) => {
                    &&& moves_in(seq![access]) == (if after.phase == before.phase {
                        Seq::empty()
                    } else {
                        seq![(before.phase, after.phase)]
                    })
                    &&& after.accepted == before.accepted + accepted_in(seq![access]).map_values(
                        |command: StateView| (task, command),
                    )
                },
            }
        }),
{
    let before = crowd_after(peer, acts);
    let after = before.act(task, act, peer);
    lemma_inv(peer, acts);
    match access_of(before, task, act) {
        None => {},
        Some(access) => {
            let none = Seq::<Access>::empty();
            lemma_one_more(none, access);
            assert(seq![access] =~= none.push(access));
            assert(moves_in(none) =~= Seq::empty());
            assert(accepted_in(none) =~= Seq::empty());
            assert(moves_in(seq![access]) =~= if after.phase == before.phase {
                Seq::empty()
            } else {
                seq![(before.phase, after.phase)]
            });
            assert(after.accepted =~= before.accepted + accepted_in(seq![access]).map_values(
                |command: StateView| (task, command),
            ));
        },
    }
}

/// A disconnect that finds nothing left to do comes after a `Disconnect` was accepted, by whichever
/// task: no client is disconnected without one.
pub proof fn law_done_means_sent(peer: Seq<char>, acts: Seq<(nat, Act)>)
    requires
        is_crowd_run(peer, acts),
        disconnect_step(claim_outcome(crowd_after(peer, acts).phase)) is Done,
    ensures
        has_disconnect(crowd_after(peer, acts).accepted),
        crowd_after(peer, acts).phase == DISCONNECTED,
{
    lemma_inv(peer, acts);
}

} // verus!
