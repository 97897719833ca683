//! What a run of the writer amounts to on the wire, and that it is what was asked for.
//!
//! [`Mark`] is the alphabet: a byte written, a flush, a shutdown. A sequence of commands asks for
//! a sequence of marks ([`marks`]), in which it makes no difference how the bytes are cut into
//! writes. A run of the writer is a sequence of [`WriterEvent`]s, each the outcome of the step
//! that the writer was at.
use crate::state::StateView;
use crate::writer::{
    after_flush, after_receive, after_write, begin, gathered, mergeable, takes, AfterView,
    BatchView, StepView, MERGE_LIMIT,
};
use vstd::prelude::*;

verus! {

/// One thing that the writer does to the write half of the connection.
pub enum Mark {
    Byte(u8),
    Flush,
    Shutdown,
}

/// The marks of a write.
pub open spec fn bytes(data: Seq<u8>) -> Seq<Mark> {
    data.map_values(|b: u8| Mark::Byte(b))
}

/// The marks that one command asks for.
pub open spec fn command_marks(command: StateView) -> Seq<Mark> {
    match command {
        StateView::Disconnect => seq![Mark::Shutdown],
        StateView::Send(data) => bytes(data),
        StateView::SendFlush(data) => bytes(data).push(Mark::Flush),
        StateView::Flush => seq![Mark::Flush],
    }
}

/// The marks that the commands ask for, one command after the other.
pub open spec fn marks(commands: Seq<StateView>) -> Seq<Mark>
    decreases commands.len(),
{
    if commands.len() == 0 {
        Seq::empty()
    } else {
        marks(commands.drop_last()) + command_marks(commands.last())
    }
}

/// The outcome of a step of the writer.
#[verifier::ext_equal]
pub enum WriterEvent {
    /// A command was received, and the commands `more` were taken with it.
    Received { first: StateView, more: Seq<StateView> },
    /// The channel is closed and empty.
    Ended,
    /// The write, flush or shutdown succeeded.
    Done,
    /// The write, flush or shutdown failed.
    Failed,
}

/// Whether `event` is a possible outcome of `step`.
pub open spec fn answers(step: StepView, event: WriterEvent) -> bool {
    match step {
        StepView::Receive => match event {
            WriterEvent::Received { first, more } => takes(first, more),
            other => other is Ended,
        },
        StepView::Stop => false,
        _ => event is Done || event is Failed,
    }
}

/// The step that the writer goes on to.
pub open spec fn next_step(step: StepView, event: WriterEvent) -> StepView {
    match step {
        StepView::Receive => match event {
            WriterEvent::Received { first, more } => after_receive(first, more),
            _ => StepView::Stop,
        },
        StepView::Write { next, .. } => after_write(next, event is Done),
        StepView::Flush => after_flush(event is Done),
        StepView::Shutdown => StepView::Stop,
        StepView::Stop => StepView::Stop,
    }
}

/// The step that the writer is at after `events`.
pub open spec fn step_after(events: Seq<WriterEvent>) -> StepView
    decreases events.len(),
{
    if events.len() == 0 {
        StepView::Receive
    } else {
        next_step(step_after(events.drop_last()), events.last())
    }
}

/// Whether `events` can be a run of the writer: each is a possible outcome of the step that the
/// ones before it lead to.
pub open spec fn is_run(events: Seq<WriterEvent>) -> bool
    decreases events.len(),
{
    events.len() == 0 || (is_run(events.drop_last()) && answers(
        step_after(events.drop_last()),
        events.last(),
    ))
}

/// Whether no write, flush or shutdown failed.
pub open spec fn unfailing(events: Seq<WriterEvent>) -> bool {
    forall|i: int| 0 <= i < events.len() ==> !(#[trigger] events[i] is Failed)
}

/// The commands that the writer took out of the channel in the run, in order.
pub open spec fn received(events: Seq<WriterEvent>) -> Seq<StateView>
    decreases events.len(),
{
    if events.len() == 0 {
        Seq::empty()
    } else {
        received(events.drop_last()) + match events.last() {
            WriterEvent::Received { first, more } => seq![first] + more,
            _ => Seq::empty(),
        }
    }
}

/// The marks of a step that succeeds.
pub open spec fn step_marks(step: StepView) -> Seq<Mark> {
    match step {
        StepView::Write { data, .. } => bytes(data),
        StepView::Flush => seq![Mark::Flush],
        StepView::Shutdown => seq![Mark::Shutdown],
        _ => Seq::empty(),
    }
}

/// What the writer did to the write half in the run: the marks of the steps that succeeded. How
/// much of a write went out before it failed is not known, and does not count.
pub open spec fn performed(events: Seq<WriterEvent>) -> Seq<Mark>
    decreases events.len(),
{
    if events.len() == 0 {
        Seq::empty()
    } else {
        performed(events.drop_last()) + if events.last() is Done {
            step_marks(step_after(events.drop_last()))
        } else {
            Seq::empty()
        }
    }
}

/// The marks that a writer at `step` still has to make for commands that it has taken.
pub open spec fn outstanding(step: StepView) -> Seq<Mark> {
    match step {
        StepView::Write { data, next } => bytes(data) + match next {
            AfterView::Receive => Seq::empty(),
            AfterView::Flush => seq![Mark::Flush],
            AfterView::Command(command) => command_marks(command),
        },
        other => step_marks(other),
    }
}

proof fn lemma_marks_concat(left: Seq<StateView>, right: Seq<StateView>)
    ensures
        marks(left + right) == marks(left) + marks(right),
    decreases right.len(),
{
    if right.len() == 0 {
        assert(left + right =~= left);
    } else {
        lemma_marks_concat(left, right.drop_last());
        assert((left + right).drop_last() =~= left + right.drop_last());
        assert((left + right).last() == right.last());
    }
}

/// A prefix of the commands asks for a prefix of the marks.
pub(crate) proof fn lemma_marks_prefix(prefix: Seq<StateView>, commands: Seq<StateView>)
    requires
        prefix.is_prefix_of(commands),
    ensures
        marks(prefix).is_prefix_of(marks(commands)),
{
    let rest = commands.subrange(prefix.len() as int, commands.len() as int);
    assert(commands =~= prefix + rest);
    lemma_marks_concat(prefix, rest);
}

proof fn lemma_marks_single(command: StateView)
    ensures
        marks(seq![command]) == command_marks(command),
{
    assert(seq![command].drop_last() =~= Seq::empty());
    assert(marks(Seq::empty()) =~= Seq::empty());
}

proof fn lemma_begin(command: StateView)
    ensures
        outstanding(begin(command)) == command_marks(command),
{
}

/// A batch stands for the commands that were put into it.
proof fn lemma_gathered(data: Seq<u8>, more: Seq<StateView>)
    requires
        mergeable(data, more),
    ensures
        outstanding(gathered(data, more).step()) == bytes(data) + marks(more),
    decreases more.len(),
{
    if more.len() > 0 {
        let shorter = more.drop_last();
        lemma_gathered(data, shorter);
        let batch = gathered(data, shorter);
        match more.last() {
            StateView::Send(d) => {
                assert(bytes(batch.data + d) =~= bytes(batch.data) + bytes(d));
            },
            _ => {},
        }
    }
}

proof fn lemma_after_receive(first: StateView, more: Seq<StateView>)
    requires
        takes(first, more),
    ensures
        outstanding(after_receive(first, more)) == marks(seq![first] + more),
{
    lemma_marks_concat(seq![first], more);
    lemma_marks_single(first);
    match first {
        StateView::Send(data) => lemma_gathered(data, more),
        other => {
            lemma_begin(other);
            assert(marks(more) =~= Seq::empty());
        },
    }
}

/// The commands are carried out in the order in which they were received, and each in full: as
/// long as nothing fails, what the writer has done, followed by what it still has to do for the
/// step it is at, is exactly what the received commands ask for.
pub proof fn law_commands_in_order(events: Seq<WriterEvent>)
    requires
        is_run(events),
        unfailing(events),
    ensures
        performed(events) + outstanding(step_after(events)) == marks(received(events)),
    decreases events.len(),
{
    if events.len() > 0 {
        let before = events.drop_last();
        assert(unfailing(before)) by {
            assert forall|i: int| 0 <= i < before.len() implies !(#[trigger] before[i] is Failed) by {
                assert(before[i] == events[i]);
            }
        }
        law_commands_in_order(before);
        match events.last() {
            WriterEvent::Received { first, more } => {
                lemma_marks_concat(received(before), seq![first] + more);
                lemma_after_receive(first, more);
            },
            _ => {
                match step_after(before) {
                    StepView::Write { next: AfterView::Command(command), .. } => {
                        lemma_begin(command);
                    },
                    _ => {},
                }
            },
        }
    } else {
        assert(marks(Seq::empty()) =~= Seq::empty());
    }
}

/// A failure ends the run.
proof fn lemma_failure_is_last(events: Seq<WriterEvent>)
    requires
        is_run(events),
    ensures
        unfailing(events) || (events.len() > 0 && events.last() is Failed && unfailing(
            events.drop_last(),
        ) && step_after(events) is Stop),
    decreases events.len(),
{
    if events.len() > 0 {
        lemma_failure_is_last(events.drop_last());
        assert forall|i: int|
            0 <= i < events.len() && !(events.last() is Failed) && unfailing(
                events.drop_last(),
            ) implies !(#[trigger] events[i] is Failed) by {
            if i < events.len() - 1 {
                assert(events[i] == events.drop_last()[i]);
            }
        }
    }
}

/// When the writer is back at waiting for a command, or was told that the channel is closed, all
/// that the commands received so far ask for has been done, and nothing else.
pub proof fn law_idle_is_caught_up(events: Seq<WriterEvent>)
    requires
        is_run(events),
        step_after(events) is Receive || (events.len() > 0 && events.last() is Ended),
    ensures
        performed(events) == marks(received(events)),
{
    lemma_failure_is_last(events);
    law_commands_in_order(events);
}

/// Whether the writer is done with all that it has taken: it waits for a command, or has ended.
pub open spec fn is_idle(step: StepView) -> bool {
    step is Receive || step is Stop
}

/// The events with `n` more, each of which is a success.
pub open spec fn succeeding(events: Seq<WriterEvent>, n: nat) -> Seq<WriterEvent>
    decreases n,
{
    if n == 0 {
        events
    } else {
        succeeding(events, (n - 1) as nat).push(WriterEvent::Done)
    }
}

/// The writer makes progress: wherever it is, it has nothing left to do after at most three
/// successes. It never comes back to a step without having received a command in between.
pub proof fn law_writer_makes_progress(step: StepView)
    ensures
        ({
            let first = next_step(step, WriterEvent::Done);
            let second = next_step(first, WriterEvent::Done);
            let third = next_step(second, WriterEvent::Done);
            &&& is_idle(step) || is_idle(first) || is_idle(second) || is_idle(third)
            &&& !is_idle(step) ==> first != step
            &&& !is_idle(step) && !is_idle(first) ==> second != first && second != step
        }),
{
}

/// No more than three successes come one after the other in a run: then a command is waited for, or
/// the writer has ended.
pub proof fn law_successes_are_few(events: Seq<WriterEvent>, i: int)
    requires
        is_run(events),
        0 <= i <= events.len() - 4,
    ensures
        !(events[i] is Done && events[i + 1] is Done && events[i + 2] is Done
            && events[i + 3] is Done),
    decreases events.len(),
{
    let before = events.drop_last();
    if i < events.len() - 4 {
        law_successes_are_few(before, i);
    } else {
        reveal_with_fuel(is_run, 5);
        reveal_with_fuel(step_after, 5);
        law_writer_makes_progress(step_after(events.take(i)));
        assert(before.drop_last().drop_last().drop_last() =~= events.take(i));
    }
}

/// What is received reaches the wire: after at most three successes in a row the writer has nothing
/// left to do, and all that the received commands ask for has been done.
pub proof fn law_received_reaches_wire(
    events: Seq<WriterEvent>,
    first: StateView,
    more: Seq<StateView>,
) -> (n: nat)
    requires
        is_run(events),
        step_after(events) is Receive,
        takes(first, more),
    ensures
        1 <= n <= 3,
        ({
            let all = succeeding(events.push(WriterEvent::Received { first, more }), n);
            &&& is_run(all)
            &&& is_idle(step_after(all))
            &&& received(all) == received(events) + (seq![first] + more)
            &&& performed(all) == performed(events) + marks(seq![first] + more)
        }),
{
    let start = events.push(WriterEvent::Received { first, more });
    let one = start.push(WriterEvent::Done);
    let two = one.push(WriterEvent::Done);
    let three = two.push(WriterEvent::Done);
    assert(start.drop_last() =~= events);
    assert(one.drop_last() =~= start);
    assert(two.drop_last() =~= one);
    assert(three.drop_last() =~= two);
    assert(is_run(start));
    assert(!is_idle(step_after(start)));
    assert(is_run(one));
    assert(is_idle(step_after(one)) || is_run(two));
    assert(is_idle(step_after(one)) || is_idle(step_after(two)) || is_run(three));
    law_writer_makes_progress(step_after(start));
    let n: nat = if is_idle(step_after(one)) {
        1
    } else if is_idle(step_after(two)) {
        2
    } else {
        3
    };
    reveal_with_fuel(succeeding, 4);
    let all = succeeding(start, n);
    assert(all == if n == 1 {
        one
    } else if n == 2 {
        two
    } else {
        three
    });
    assert(received(one) =~= received(start));
    assert(received(two) =~= received(start));
    assert(received(three) =~= received(start));
    lemma_failure_is_last(events);
    law_idle_is_caught_up(events);
    assert(unfailing(events));
    assert(unfailing(all));
    law_commands_in_order(all);
    lemma_marks_concat(received(events), seq![first] + more);
    n
}

/// A command that is carried out by itself takes one write where it has bytes to send and none
/// otherwise, and the write is the first of its steps.
pub proof fn law_one_write_per_command(command: StateView)
    ensures
        ({
            let first = begin(command);
            let second = next_step(first, WriterEvent::Done);
            let third = next_step(second, WriterEvent::Done);
            &&& first is Write <==> command is Send || command is SendFlush
            &&& !(second is Write) && !(third is Write)
            &&& step_marks(first) + step_marks(second) + step_marks(third) == command_marks(command)
            &&& is_idle(second) || is_idle(third)
        }),
{
    let first = begin(command);
    let second = next_step(first, WriterEvent::Done);
    let third = next_step(second, WriterEvent::Done);
    assert(step_marks(first) + step_marks(second) + step_marks(third) =~= command_marks(command));
}

/// Whatever fails and whenever, the writer never does anything but what the received commands ask
/// for, in their order: what it has done is a prefix of that.
pub proof fn law_nothing_unasked(events: Seq<WriterEvent>)
    requires
        is_run(events),
    ensures
        performed(events).is_prefix_of(marks(received(events))),
{
    lemma_failure_is_last(events);
    let sound = if unfailing(events) {
        events
    } else {
        events.drop_last()
    };
    law_commands_in_order(sound);
    assert(performed(events) =~= performed(sound));
    assert(received(events) =~= received(sound));
}

/// Whether `step` is on the way to a shutdown, or past it.
spec fn closing(step: StepView) -> bool {
    match step {
        StepView::Write { next: AfterView::Command(command), .. } => command is Disconnect,
        StepView::Shutdown => true,
        StepView::Stop => true,
        _ => false,
    }
}

/// Only the last of the commands that go into a batch can be a `Disconnect`.
proof fn lemma_batch_disconnect(data: Seq<u8>, more: Seq<StateView>)
    requires
        mergeable(data, more),
    ensures
        gathered(data, more).carried is None ==> forall|i: int|
            0 <= i < more.len() ==> #[trigger] more[i] is Send,
        forall|i: int| 0 <= i < more.len() - 1 ==> #[trigger] more[i] is Send,
        gathered(data, more).carried matches Some(command) ==> more.len() > 0 && command
            == more.last(),
    decreases more.len(),
{
    if more.len() > 0 {
        lemma_batch_disconnect(data, more.drop_last());
        assert forall|i: int| 0 <= i < more.len() - 1 implies #[trigger] more[i] is Send by {
            assert(more[i] == more.drop_last()[i]);
        }
    }
}

proof fn lemma_disconnect_is_last_received(events: Seq<WriterEvent>)
    requires
        is_run(events),
    ensures
        forall|i: int|
            0 <= i < received(events).len() - 1 ==> !(#[trigger] received(events)[i] is Disconnect),
        received(events).len() > 0 && received(events).last() is Disconnect ==> closing(
            step_after(events),
        ),
    decreases events.len(),
{
    if events.len() > 0 {
        let before = events.drop_last();
        lemma_disconnect_is_last_received(before);
        match events.last() {
            WriterEvent::Received { first, more } => {
                match first {
                    StateView::Send(data) => lemma_batch_disconnect(data, more),
                    _ => {},
                }
                assert forall|i: int| 0 <= i < received(events).len() - 1 implies !(
                #[trigger] received(events)[i] is Disconnect) by {
                    let n = received(before).len();
                    if i < n {
                        assert(received(events)[i] == received(before)[i]);
                    } else if i > n {
                        assert(received(events)[i] == more[i - n - 1]);
                    }
                }
            },
            _ => {
                assert(received(events) =~= received(before));
            },
        }
    }
}

/// A `Disconnect` is the last command that the writer takes: none that comes behind it is ever
/// received, let alone carried out.
pub proof fn law_disconnect_is_last_received(events: Seq<WriterEvent>)
    requires
        is_run(events),
    ensures
        forall|i: int|
            0 <= i < received(events).len() - 1 ==> !(#[trigger] received(events)[i] is Disconnect),
{
    lemma_disconnect_is_last_received(events);
}

proof fn lemma_no_shutdown(commands: Seq<StateView>)
    requires
        forall|i: int| 0 <= i < commands.len() ==> !(#[trigger] commands[i] is Disconnect),
    ensures
        forall|i: int| 0 <= i < marks(commands).len() ==> !(#[trigger] marks(commands)[i] is Shutdown),
    decreases commands.len(),
{
    if commands.len() > 0 {
        let before = commands.drop_last();
        assert forall|i: int| 0 <= i < before.len() implies !(#[trigger] before[i] is Disconnect) by {
            assert(before[i] == commands[i]);
        }
        lemma_no_shutdown(before);
        assert(!(commands[commands.len() - 1] is Disconnect));
        assert forall|i: int| 0 <= i < marks(commands).len() implies !(
        #[trigger] marks(commands)[i] is Shutdown) by {
            let n = marks(before).len();
            if i < n {
                assert(marks(commands)[i] == marks(before)[i]);
            } else {
                assert(marks(commands)[i] == command_marks(commands.last())[i - n]);
            }
        }
    }
}

/// The write half is shut down at most once, and nothing is written or flushed after that.
pub proof fn law_shutdown_is_last_mark(events: Seq<WriterEvent>)
    requires
        is_run(events),
    ensures
        forall|i: int|
            0 <= i < performed(events).len() - 1 ==> !(#[trigger] performed(events)[i] is Shutdown),
{
    law_nothing_unasked(events);
    law_disconnect_is_last_received(events);
    let commands = received(events);
    if commands.len() > 0 {
        let before = commands.drop_last();
        assert forall|i: int| 0 <= i < before.len() implies !(#[trigger] before[i] is Disconnect) by {
            assert(before[i] == commands[i]);
        }
        lemma_no_shutdown(before);
        assert forall|i: int| 0 <= i < performed(events).len() - 1 implies !(
        #[trigger] performed(events)[i] is Shutdown) by {
            assert(performed(events)[i] == marks(commands)[i]);
            let n = marks(before).len();
            if i < n {
                assert(marks(commands)[i] == marks(before)[i]);
            } else {
                assert(marks(commands)[i] == command_marks(commands.last())[i - n]);
            }
        }
    }
}

/// A failed write or flush ends the writer, as do a shutdown and a closed channel, and a writer
/// that has ended does nothing more: no event can follow.
pub proof fn law_end_is_final(events: Seq<WriterEvent>, event: WriterEvent)
    requires
        is_run(events),
        events.len() > 0,
        events.last() is Failed || events.last() is Ended || step_after(
            events.drop_last(),
        ) is Shutdown,
    ensures
        step_after(events) is Stop,
        !is_run(events.push(event)),
{
    assert(events.push(event).drop_last() =~= events);
}

/// `Send` commands that wait one behind the other are merged: the writer takes all of them, up to
/// the limit, and makes a single write of their bytes in order.
pub proof fn law_sends_merge(parts: Seq<Seq<u8>>)
    requires
        0 < parts.len() <= MERGE_LIMIT,
    ensures
        ({
            let first = StateView::Send(parts.first());
            let more = parts.drop_first().map_values(|part: Seq<u8>| StateView::Send(part));
            &&& takes(first, more)
            &&& after_receive(first, more) == (StepView::Write {
                data: parts.flatten(),
                next: AfterView::Receive,
            })
        }),
{
    let rest = parts.drop_first();
    let more = rest.map_values(|part: Seq<u8>| StateView::Send(part));
    lemma_gathered_sends(parts.first(), rest);
    rest.lemma_flatten_and_flatten_alt_are_equivalent();
    assert(parts.flatten() =~= parts.first() + rest.flatten());
}

proof fn lemma_gathered_sends(data: Seq<u8>, rest: Seq<Seq<u8>>)
    requires
        rest.len() < MERGE_LIMIT,
    ensures
        ({
            let more = rest.map_values(|part: Seq<u8>| StateView::Send(part));
            &&& mergeable(data, more)
            &&& gathered(data, more) == (BatchView {
                data: data + rest.flatten_alt(),
                sends: rest.len() + 1,
                carried: None,
            })
        }),
    decreases rest.len(),
{
    let more = rest.map_values(|part: Seq<u8>| StateView::Send(part));
    if rest.len() == 0 {
        assert(data + rest.flatten_alt() =~= data);
    } else {
        lemma_gathered_sends(data, rest.drop_last());
        assert(more.drop_last() =~= rest.drop_last().map_values(
            |part: Seq<u8>| StateView::Send(part),
        ));
        assert(data + rest.drop_last().flatten_alt() + rest.last() =~= data + rest.flatten_alt());
    }
}

/// Sending no bytes leaves no trace: wherever it stands among other commands, what they ask for is
/// the same without it.
pub proof fn law_empty_send_is_silent(before: Seq<StateView>, after: Seq<StateView>)
    ensures
        marks(before + seq![StateView::Send(Seq::empty())] + after) == marks(before + after),
{
    let empty = StateView::Send(Seq::empty());
    lemma_marks_concat(before + seq![empty], after);
    lemma_marks_concat(before, seq![empty]);
    lemma_marks_concat(before, after);
    lemma_marks_single(empty);
    assert(bytes(Seq::empty()) =~= Seq::empty());
    assert(marks(before) + bytes(Seq::empty()) =~= marks(before));
}

/// Sending with a flush is the same as sending and then flushing, wherever it stands among other
/// commands.
pub proof fn law_send_flush_is_send_and_flush(
    before: Seq<StateView>,
    data: Seq<u8>,
    after: Seq<StateView>,
)
    ensures
        marks(before + seq![StateView::SendFlush(data)] + after) == marks(
            before + seq![StateView::Send(data), StateView::Flush] + after,
        ),
{
    let joint = seq![StateView::SendFlush(data)];
    let apart = seq![StateView::Send(data), StateView::Flush];
    lemma_marks_concat(before + joint, after);
    lemma_marks_concat(before, joint);
    lemma_marks_concat(before + apart, after);
    lemma_marks_concat(before, apart);
    lemma_marks_single(StateView::SendFlush(data));
    lemma_marks_single(StateView::Send(data));
    assert(apart.drop_last() =~= seq![StateView::Send(data)]);
    assert(marks(joint) =~= marks(apart));
}

/// Sending no bytes with a flush is just a flush: wherever it stands among other commands, it adds
/// one flush to what they ask for, and no byte.
pub proof fn law_empty_send_flush_is_flush(before: Seq<StateView>, after: Seq<StateView>)
    ensures
        marks(before + seq![StateView::SendFlush(Seq::empty())] + after) == marks(before).push(
            Mark::Flush,
        ) + marks(after),
        marks(before + after) == marks(before) + marks(after),
{
    let empty = StateView::SendFlush(Seq::empty());
    lemma_marks_concat(before + seq![empty], after);
    lemma_marks_concat(before, seq![empty]);
    lemma_marks_concat(before, after);
    lemma_marks_single(empty);
    assert(bytes(Seq::empty()) =~= Seq::empty());
    assert(marks(before) + command_marks(empty) =~= marks(before).push(Mark::Flush));
}

/// Sends followed by a flush ask for all their bytes, in order, and then for exactly one flush.
pub proof fn law_sends_then_flush(parts: Seq<Seq<u8>>)
    ensures
        marks(parts.map_values(|part: Seq<u8>| StateView::Send(part))) == bytes(
            parts.flatten_alt(),
        ),
        marks(parts.map_values(|part: Seq<u8>| StateView::Send(part)).push(StateView::Flush))
            == bytes(parts.flatten_alt()).push(Mark::Flush),
    decreases parts.len(),
{
    let sends = parts.map_values(|part: Seq<u8>| StateView::Send(part));
    if parts.len() == 0 {
        assert(sends =~= Seq::empty());
        assert(bytes(parts.flatten_alt()) =~= Seq::empty());
    } else {
        law_sends_then_flush(parts.drop_last());
        assert(sends.drop_last() =~= parts.drop_last().map_values(
            |part: Seq<u8>| StateView::Send(part),
        ));
        assert(bytes(parts.drop_last().flatten_alt() + parts.last()) =~= bytes(
            parts.drop_last().flatten_alt(),
        ) + bytes(parts.last()));
    }
    assert(sends.push(StateView::Flush).drop_last() =~= sends);
    assert(marks(sends) + seq![Mark::Flush] =~= marks(sends).push(Mark::Flush));
}

/// Where the marks of the command at `i` begin among those of all the commands.
pub open spec fn offset(commands: Seq<StateView>, i: int) -> int {
    marks(commands.take(i)).len() as int
}

/// What a command asks for stands together, and stands once: between where its marks begin and
/// where those of the next command begin, and those places come in the order of the commands.
pub proof fn law_commands_stand_together(commands: Seq<StateView>, i: int)
    requires
        0 <= i < commands.len(),
    ensures
        0 <= offset(commands, i) <= offset(commands, i + 1) <= marks(commands).len(),
        marks(commands).subrange(offset(commands, i), offset(commands, i + 1)) == command_marks(
            commands[i],
        ),
{
    let head = commands.take(i + 1);
    let rest = commands.skip(i + 1);
    assert(commands =~= head + rest);
    lemma_marks_concat(head, rest);
    assert(head.drop_last() =~= commands.take(i));
    assert(marks(commands).subrange(offset(commands, i), offset(commands, i + 1))
        =~= command_marks(commands[i]));
}

/// The commands that count: those up to the first `Disconnect`.
pub open spec fn effective(commands: Seq<StateView>) -> Seq<StateView>
    decreases commands.len(),
{
    if commands.len() == 0 {
        commands
    } else {
        let before = effective(commands.drop_last());
        if before.len() > 0 && before.last() is Disconnect {
            before
        } else {
            before.push(commands.last())
        }
    }
}

/// Whether only the last of the commands can be a `Disconnect`.
spec fn disconnects_last(commands: Seq<StateView>) -> bool {
    forall|i: int| 0 <= i < commands.len() - 1 ==> !(#[trigger] commands[i] is Disconnect)
}

proof fn lemma_effective(commands: Seq<StateView>)
    ensures
        effective(commands).is_prefix_of(commands),
        disconnects_last(effective(commands)),
        effective(commands) == commands || (effective(commands).len() > 0 && effective(
            commands,
        ).last() is Disconnect),
    decreases commands.len(),
{
    if commands.len() > 0 {
        lemma_effective(commands.drop_last());
        let before = effective(commands.drop_last());
        if before.len() > 0 && before.last() is Disconnect {
            assert(before =~= commands.subrange(0, before.len() as int));
        } else {
            assert(before.push(commands.last()) =~= commands);
            assert forall|i: int| 0 <= i < effective(commands).len() - 1 implies !(
            #[trigger] effective(commands)[i] is Disconnect) by {
                assert(effective(commands)[i] == before[i]);
            }
        }
    }
}

/// A beginning of the commands in which only the last can be a `Disconnect` is a beginning of those
/// that count, and is all of them where it ends with a `Disconnect`.
proof fn lemma_beginning_counts(beginning: Seq<StateView>, commands: Seq<StateView>)
    requires
        beginning.is_prefix_of(commands),
        disconnects_last(beginning),
    ensures
        beginning.is_prefix_of(effective(commands)),
        beginning.len() > 0 && beginning.last() is Disconnect ==> beginning == effective(commands),
{
    lemma_effective(commands);
    let e = effective(commands);
    if beginning.len() > e.len() {
        assert(beginning[e.len() - 1] == commands[e.len() - 1]);
        assert(e[e.len() - 1] == commands[e.len() - 1]);
        assert(false);
    }
    assert(beginning =~= e.subrange(0, beginning.len() as int));
    if beginning.len() > 0 && beginning.last() is Disconnect {
        if beginning.len() < e.len() {
            assert(e[beginning.len() - 1] == beginning[beginning.len() - 1]);
            assert(false);
        }
    }
}

/// Whether the events fit a stream that takes `limit` marks and then fails: a write, flush or
/// shutdown succeeds exactly where all its marks are within the limit.
pub open spec fn on_stream(events: Seq<WriterEvent>, limit: nat) -> bool
    decreases events.len(),
{
    events.len() == 0 || {
        let before = events.drop_last();
        &&& on_stream(before, limit)
        &&& events.last() is Done ==> performed(before).len() + step_marks(step_after(before)).len()
            <= limit
        &&& events.last() is Failed ==> performed(before).len() + step_marks(
            step_after(before),
        ).len() > limit
    }
}

/// What such a stream has taken: the marks of all that succeeded and, of what failed, those that
/// were still within the limit.
pub open spec fn on_wire(events: Seq<WriterEvent>, limit: nat) -> Seq<Mark> {
    performed(events) + if events.len() > 0 && events.last() is Failed {
        step_marks(step_after(events.drop_last())).take(
            limit - performed(events.drop_last()).len(),
        )
    } else {
        Seq::empty()
    }
}

/// The first `limit` of some marks, or all of them where there are fewer.
pub open spec fn up_to(all: Seq<Mark>, limit: nat) -> Seq<Mark> {
    if limit <= all.len() {
        all.take(limit as int)
    } else {
        all
    }
}

/// Whether the writer has come to an end with the commands, which the channel hands to it first in,
/// first out: it has ended by a failure or a shutdown, or has received all of them and is waiting
/// for more or was told that the channel is closed.
pub open spec fn is_through(events: Seq<WriterEvent>, commands: Seq<StateView>) -> bool {
    &&& is_run(events)
    &&& received(events).is_prefix_of(commands)
    &&& step_after(events) is Receive || step_after(events) is Stop
    &&& step_after(events) is Receive || (events.len() > 0 && events.last() is Ended) ==> received(
        events,
    ) == commands
}

proof fn lemma_within_limit(events: Seq<WriterEvent>, limit: nat)
    requires
        on_stream(events, limit),
    ensures
        performed(events).len() <= limit,
    decreases events.len(),
{
    if events.len() > 0 {
        lemma_within_limit(events.drop_last(), limit);
    }
}

/// A shutdown comes of a `Disconnect`, the last command received.
proof fn lemma_shutdown_of_disconnect(events: Seq<WriterEvent>)
    requires
        is_run(events),
    ensures
        step_after(events) is Shutdown ==> received(events).len() > 0 && received(
            events,
        ).last() is Disconnect,
        step_after(events) matches StepView::Write { next: AfterView::Command(command), .. }
            ==> received(events).len() > 0 && received(events).last() == command,
    decreases events.len(),
{
    if events.len() > 0 {
        let before = events.drop_last();
        lemma_shutdown_of_disconnect(before);
        match events.last() {
            WriterEvent::Received { first, more } => {
                match first {
                    StateView::Send(data) => lemma_batch_disconnect(data, more),
                    _ => {},
                }
                assert(received(events) =~= received(before) + (seq![first] + more));
            },
            _ => {
                assert(received(events) =~= received(before));
            },
        }
    }
}

/// The writer goes on as long as nothing fails, until it is told that the channel is closed or has
/// carried out a `Disconnect`.
pub proof fn law_writer_goes_on(events: Seq<WriterEvent>)
    requires
        is_run(events),
        unfailing(events),
        step_after(events) is Stop,
    ensures
        events.last() is Ended || (received(events).len() > 0 && received(
            events,
        ).last() is Disconnect && performed(events) == marks(received(events))),
{
    let before = events.drop_last();
    assert(!(events.last() is Failed));
    lemma_shutdown_of_disconnect(before);
    law_commands_in_order(events);
    if !(events.last() is Ended) {
        assert(received(events) =~= received(before));
    }
}

/// Only `Send` commands are merged, and no more than the limit: all that a `Send` is followed up by
/// are `Send` commands, but for the last, and any other command is not followed up.
pub proof fn law_merging_is_bounded(first: StateView, more: Seq<StateView>)
    requires
        takes(first, more),
    ensures
        more.len() < MERGE_LIMIT,
        !(first is Send) ==> more.len() == 0,
        forall|i: int| 0 <= i < more.len() - 1 ==> #[trigger] more[i] is Send,
{
    match first {
        StateView::Send(data) => {
            lemma_batch_disconnect(data, more);
            lemma_batch_size(data, more);
        },
        _ => {},
    }
}

proof fn lemma_batch_size(data: Seq<u8>, more: Seq<StateView>)
    requires
        mergeable(data, more),
    ensures
        gathered(data, more).sends == more.len() + (if gathered(data, more).carried is None {
            1int
        } else {
            0
        }),
        gathered(data, more).carried is None ==> gathered(data, more).sends <= MERGE_LIMIT,
        gathered(data, more).carried is Some ==> gathered(data, more).sends < MERGE_LIMIT,
    decreases more.len(),
{
    if more.len() > 0 {
        lemma_batch_size(data, more.drop_last());
    }
}

/// What reaches the wire depends on the commands alone, and not on how they were cut into writes:
/// it is what the commands up to the first `Disconnect` ask for, in order, as far as the stream
/// takes it. The writer ends with a failure exactly where the stream does not take all of it.
pub proof fn law_wire_is_what_was_asked(
    events: Seq<WriterEvent>,
    commands: Seq<StateView>,
    limit: nat,
)
    requires
        is_through(events, commands),
        on_stream(events, limit),
    ensures
        on_wire(events, limit) == up_to(marks(effective(commands)), limit),
        (events.len() > 0 && events.last() is Failed) <==> limit < marks(effective(commands)).len(),
{
    let asked = marks(effective(commands));
    lemma_failure_is_last(events);
    lemma_within_limit(events, limit);
    lemma_disconnect_is_last_received(events);
    lemma_beginning_counts(received(events), commands);
    lemma_marks_prefix(received(events), effective(commands));
    if !unfailing(events) {
        let before = events.drop_last();
        let step = step_after(before);
        lemma_within_limit(before, limit);
        law_commands_in_order(before);
        assert(received(events) =~= received(before));
        assert(performed(events) =~= performed(before));
        let done = performed(before);
        assert(step_marks(step) =~= outstanding(step).take(step_marks(step).len() as int));
        assert((done + step_marks(step)).take(limit as int) =~= done + step_marks(step).take(
            limit - done.len(),
        ));
        assert((done + step_marks(step)).take(limit as int) =~= marks(received(events)).take(
            limit as int,
        ));
        assert(marks(received(events)).take(limit as int) =~= asked.take(limit as int));
    } else {
        law_commands_in_order(events);
        assert(performed(events) =~= marks(received(events)));
        if step_after(events) is Receive || events.last() is Ended {
            if events.len() > 0 && events.last() is Ended {
                lemma_disconnect_is_last_received(events.drop_last());
                assert(received(events) =~= received(events.drop_last()));
            }
            lemma_effective(commands);
        } else {
            lemma_shutdown_of_disconnect(events.drop_last());
            assert(received(events) =~= received(events.drop_last()));
        }
        assert(received(events) == effective(commands));
        assert(on_wire(events, limit) =~= asked);
        assert(asked.take(asked.len() as int) =~= asked);
    }
}

proof fn lemma_effective_single(command: StateView)
    ensures
        effective(seq![command]) == seq![command],
{
    assert(seq![command].drop_last() =~= Seq::empty());
    reveal_with_fuel(effective, 2);
    assert(effective(seq![command]) =~= seq![command]);
}

/// The commands that count of one series followed by another: the second counts only where the
/// first has no `Disconnect`.
proof fn lemma_effective_concat(left: Seq<StateView>, right: Seq<StateView>)
    ensures
        effective(left + right) == if effective(left).len() > 0 && effective(
            left,
        ).last() is Disconnect {
            effective(left)
        } else {
            left + effective(right)
        },
    decreases right.len(),
{
    lemma_effective(left);
    if right.len() == 0 {
        assert(left + right =~= left);
        assert(left + effective(right) =~= left);
    } else {
        let shorter = right.drop_last();
        lemma_effective_concat(left, shorter);
        assert((left + right).drop_last() =~= left + shorter);
        assert((left + right).last() == right.last());
        if !(effective(left).len() > 0 && effective(left).last() is Disconnect) {
            let e = effective(shorter);
            if e.len() > 0 {
                assert((left + e).last() == e.last());
            }
            assert((left + e).push(right.last()) =~= left + e.push(right.last()));
        }
    }
}

/// Two writers on streams that fail at the same point, one of which gets a `SendFlush` where the
/// other gets a `Send` and a `Flush`, put the same on the wire, and fail both or neither.
pub proof fn law_send_flush_is_send_and_flush_on_wire(
    before: Seq<StateView>,
    data: Seq<u8>,
    after: Seq<StateView>,
    joint: Seq<WriterEvent>,
    apart: Seq<WriterEvent>,
    limit: nat,
)
    requires
        is_through(joint, before + seq![StateView::SendFlush(data)] + after),
        is_through(apart, before + seq![StateView::Send(data), StateView::Flush] + after),
        on_stream(joint, limit),
        on_stream(apart, limit),
    ensures
        on_wire(joint, limit) == on_wire(apart, limit),
        (joint.len() > 0 && joint.last() is Failed) <==> (apart.len() > 0
            && apart.last() is Failed),
{
    let one = seq![StateView::SendFlush(data)];
    let two = seq![StateView::Send(data), StateView::Flush];
    law_wire_is_what_was_asked(joint, before + one + after, limit);
    law_wire_is_what_was_asked(apart, before + two + after, limit);
    assert(before + one + after =~= before + (one + after));
    assert(before + two + after =~= before + (two + after));
    lemma_effective_concat(before, one + after);
    lemma_effective_concat(before, two + after);
    lemma_effective_concat(one, after);
    lemma_effective_concat(two, after);
    lemma_effective_single(StateView::SendFlush(data));
    lemma_effective_single(StateView::Send(data));
    assert(two.drop_last() =~= seq![StateView::Send(data)]);
    assert(effective(two) =~= two);
    assert(before + (one + effective(after)) =~= before + one + effective(after));
    assert(before + (two + effective(after)) =~= before + two + effective(after));
    law_send_flush_is_send_and_flush(before, data, effective(after));
}

/// A `Disconnect` is graceful: where no operation fails, all that the commands before it ask for
/// is done first, then the write half is shut down, and nothing that stands behind it is done.
pub proof fn law_disconnect_is_graceful(
    before: Seq<StateView>,
    after: Seq<StateView>,
    events: Seq<WriterEvent>,
)
    requires
        forall|i: int| 0 <= i < before.len() ==> !(#[trigger] before[i] is Disconnect),
        is_through(events, before + seq![StateView::Disconnect] + after),
        unfailing(events),
    ensures
        performed(events) == marks(before).push(Mark::Shutdown),
        step_after(events) is Stop,
{
    let end = seq![StateView::Disconnect];
    let commands = before + end + after;
    let all = before + end;
    lemma_effective(before);
    if effective(before) != before {
        let e = effective(before);
        assert(e.last() == before[e.len() - 1]);
    }
    lemma_effective_concat(before, end);
    lemma_effective_single(StateView::Disconnect);
    if before.len() > 0 {
        assert(!(before[before.len() - 1] is Disconnect));
    }
    assert(effective(all) == all);
    assert(all.last() is Disconnect);
    lemma_effective_concat(all, after);
    assert(effective(commands) == all);
    let limit = performed(events).len();
    lemma_unfailing_on_stream(events, limit);
    law_wire_is_what_was_asked(events, commands, limit);
    lemma_marks_concat(before, end);
    lemma_marks_single(StateView::Disconnect);
    assert(marks(all) =~= marks(before).push(Mark::Shutdown));
    assert(up_to(marks(all), limit) =~= marks(all)) by {
        assert(marks(all).take(marks(all).len() as int) =~= marks(all));
    }
    assert(on_wire(events, limit) =~= performed(events));
    if step_after(events) is Receive {
        lemma_disconnect_is_last_received(events);
        lemma_beginning_counts(received(events), commands);
    }
}

/// A run without a failure fits any stream that takes as much as it does.
proof fn lemma_unfailing_on_stream(events: Seq<WriterEvent>, limit: nat)
    requires
        unfailing(events),
        performed(events).len() <= limit,
    ensures
        on_stream(events, limit),
    decreases events.len(),
{
    if events.len() > 0 {
        let before = events.drop_last();
        assert(unfailing(before)) by {
            assert forall|i: int| 0 <= i < before.len() implies !(#[trigger] before[i] is Failed) by {
                assert(before[i] == events[i]);
            }
        }
        assert(!(events[events.len() - 1] is Failed));
        lemma_unfailing_on_stream(before, limit);
    }
}

} // verus!
