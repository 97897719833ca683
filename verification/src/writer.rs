//! The writer: which operation on the write half of the connection comes next.
//!
//! A [`WriterStep`] is what the writer task has to do now. The task does it and hands the outcome
//! to the function for that step, which says what to do next. Commands are carried out in the
//! order in which they come, except that [`State::Send`] commands which wait one behind the other
//! are merged into a single write.
use crate::channel::{deliverable, found_empty, in_order, taken, try_recv, CHANNEL_CAPACITY};
use crate::state::{State, StateView};
use vstd::prelude::*;

verus! {

/// How many [`State::Send`] commands one write takes at most: as many as the channel can hold.
pub const MERGE_LIMIT: usize = CHANNEL_CAPACITY;

/// What the writer does once a write has succeeded.
#[derive(Debug)]
pub enum After {
    /// Wait for the next command.
    Receive,
    /// Flush what was written.
    Flush,
    /// Carry out a command that was received already.
    Command(State),
}

/// What the writer task has to do now.
#[derive(Debug)]
pub enum WriterStep {
    /// Wait for a command, and report it with [`WriterStep::received`].
    Receive,
    /// Write all of `data`, and report the outcome with [`WriterStep::written`].
    Write { data: Vec<u8>, next: After },
    /// Flush, and report the outcome with [`WriterStep::flushed`].
    Flush,
    /// Shut the write half down, and report that with [`WriterStep::shut_down`].
    Shutdown,
    /// End.
    Stop,
}

/// An [`After`] as a mathematical value.
#[verifier::ext_equal]
pub enum AfterView {
    Receive,
    Flush,
    Command(StateView),
}

impl View for After {
    type V = AfterView;

    open spec fn view(&self) -> AfterView {
        match self {
            After::Receive => AfterView::Receive,
            After::Flush => AfterView::Flush,
            After::Command(command) => AfterView::Command(command@),
        }
    }
}

/// A [`WriterStep`] as a mathematical value.
#[verifier::ext_equal]
pub enum StepView {
    Receive,
    Write { data: Seq<u8>, next: AfterView },
    Flush,
    Shutdown,
    Stop,
}

impl View for WriterStep {
    type V = StepView;

    open spec fn view(&self) -> StepView {
        match self {
            WriterStep::Receive => StepView::Receive,
            WriterStep::Write { data, next } => StepView::Write { data: data@, next: next@ },
            WriterStep::Flush => StepView::Flush,
            WriterStep::Shutdown => StepView::Shutdown,
            WriterStep::Stop => StepView::Stop,
        }
    }
}

/// The bytes of one write in the making, with the command that ended it, if one did.
#[derive(Debug)]
pub struct Batch {
    data: Vec<u8>,
    sends: usize,
    carried: Option<State>,
}

/// A [`Batch`] as a mathematical value.
#[verifier::ext_equal]
pub struct BatchView {
    /// The bytes of the merged commands, in order.
    pub data: Seq<u8>,
    /// How many commands were merged.
    pub sends: nat,
    /// The first command that could not be merged.
    pub carried: Option<StateView>,
}

impl View for Batch {
    type V = BatchView;

    closed spec fn view(&self) -> BatchView {
        BatchView {
            data: self.data@,
            sends: self.sends as nat,
            carried: match self.carried {
                Some(command) => Some(command@),
                None => None,
            },
        }
    }
}

impl BatchView {
    /// The batch of a single `Send` command.
    pub open spec fn single(data: Seq<u8>) -> BatchView {
        BatchView { data, sends: 1, carried: None }
    }

    /// Whether the batch can take one more command.
    pub open spec fn open(self) -> bool {
        self.carried is None && self.sends < MERGE_LIMIT
    }

    /// The batch with one more command: the bytes of a `Send` go behind those that are there,
    /// anything else ends the batch.
    pub open spec fn joined(self, command: StateView) -> BatchView {
        match command {
            StateView::Send(data) => BatchView {
                data: self.data + data,
                sends: self.sends + 1,
                ..self
            },
            other => BatchView { carried: Some(other), ..self },
        }
    }

    /// The write that the batch stands for.
    pub open spec fn step(self) -> StepView {
        StepView::Write {
            data: self.data,
            next: match self.carried {
                Some(command) => AfterView::Command(command),
                None => AfterView::Receive,
            },
        }
    }
}

/// The batch that starts with a `Send` of `data` and goes on with the commands `more`.
pub open spec fn gathered(data: Seq<u8>, more: Seq<StateView>) -> BatchView
    decreases more.len(),
{
    if more.len() == 0 {
        BatchView::single(data)
    } else {
        gathered(data, more.drop_last()).joined(more.last())
    }
}

/// Whether a batch that starts with a `Send` of `data` is open for each of the commands `more` in
/// turn.
pub open spec fn mergeable(data: Seq<u8>, more: Seq<StateView>) -> bool
    decreases more.len(),
{
    more.len() == 0 || (mergeable(data, more.drop_last()) && gathered(
        data,
        more.drop_last(),
    ).open())
}

/// The first step of a command that is carried out by itself.
pub open spec fn begin(command: StateView) -> StepView {
    match command {
        StateView::Disconnect => StepView::Shutdown,
        StateView::Send(data) => StepView::Write { data, next: AfterView::Receive },
        StateView::SendFlush(data) => StepView::Write { data, next: AfterView::Flush },
        StateView::Flush => StepView::Flush,
    }
}

/// Whether, on receiving `first`, the writer can go on to take the commands `more` as well. Only
/// a `Send` is followed up.
pub open spec fn takes(first: StateView, more: Seq<StateView>) -> bool {
    match first {
        StateView::Send(data) => mergeable(data, more),
        _ => more.len() == 0,
    }
}

/// Whether, on receiving `first`, the writer went on to take the commands `more`, these and no
/// others, out of the receiver, which was `before` and is `after`. They come in the order in which
/// the channel accepted them, and where there was room for one more the channel had none left.
pub open spec fn drains(
    before: async_channel::Receiver<State>,
    after: async_channel::Receiver<State>,
    first: StateView,
    more: Seq<StateView>,
) -> bool {
    &&& takes(first, more)
    &&& deliverable(after) == deliverable(before)
    &&& taken(after) == taken(before) + more
    &&& more.len() > 0 ==> in_order(taken(after), deliverable(after))
    &&& first matches StateView::Send(data) ==> (gathered(data, more).open() ==> found_empty(after))
}

/// The step after `first` was received and the commands `more` were taken with it.
pub open spec fn after_receive(first: StateView, more: Seq<StateView>) -> StepView {
    match first {
        StateView::Send(data) => gathered(data, more).step(),
        other => begin(other),
    }
}

/// The step after a write: a failed one ends the writer.
pub open spec fn after_write(next: AfterView, ok: bool) -> StepView {
    if !ok {
        StepView::Stop
    } else {
        match next {
            AfterView::Receive => StepView::Receive,
            AfterView::Flush => StepView::Flush,
            AfterView::Command(command) => begin(command),
        }
    }
}

/// The step after a flush: a failed one ends the writer.
pub open spec fn after_flush(ok: bool) -> StepView {
    if ok {
        StepView::Receive
    } else {
        StepView::Stop
    }
}

impl Batch {
    /// Whether the number of merged commands is within bounds.
    pub closed spec fn wf(self) -> bool {
        1 <= self.sends <= MERGE_LIMIT
    }

    /// Starts a batch with the bytes of a `Send` command.
    pub fn new(data: Vec<u8>) -> (batch: Batch)
        ensures
            batch.wf(),
            batch@ == BatchView::single(data@),
    {
        Batch { data, sends: 1, carried: None }
    }

    /// Whether the batch can take one more command.
    pub fn is_open(&self) -> (open: bool)
        ensures
            open == self@.open(),
    {
        self.carried.is_none() && self.sends < MERGE_LIMIT
    }

    /// Takes one more command.
    pub fn join(&mut self, command: State)
        requires
            old(self).wf(),
            old(self)@.open(),
        ensures
            final(self).wf(),
            final(self)@ == old(self)@.joined(command@),
    {
        match command {
            State::Send(data) => {
                let mut data = data;
                self.data.append(&mut data);
                self.sends = self.sends + 1;
            },
            other => {
                self.carried = Some(other);
            },
        }
    }

    /// The write that the batch stands for.
    pub fn into_step(self) -> (step: WriterStep)
        ensures
            step@ == self@.step(),
    {
        let next = match self.carried {
            Some(command) => After::Command(command),
            None => After::Receive,
        };
        WriterStep::Write { data: self.data, next }
    }

    /// Starts a batch with the bytes of a `Send` command and takes the commands that wait behind
    /// it, without waiting for any: up to the first that cannot be merged, or the limit.
    fn gather(data: Vec<u8>, receiver: &mut async_channel::Receiver<State>) -> (batch: Batch)
        ensures
            exists|more: Seq<StateView>|
                #[trigger] drains(*old(receiver), *final(receiver), StateView::Send(data@), more)
                    && batch@ == gathered(data@, more),
    {
        let ghost before = *receiver;
        let ghost mut more = Seq::<StateView>::empty();
        let ghost first = data@;
        let mut batch = Batch::new(data);
        proof {
            assert(taken(before) + more =~= taken(before));
        }
        while batch.is_open()
            invariant
                first == data@,
                before == *old(receiver),
                batch.wf(),
                batch@ == gathered(first, more),
                mergeable(first, more),
                deliverable(*receiver) == deliverable(before),
                taken(*receiver) == taken(before) + more,
                more.len() > 0 ==> in_order(taken(*receiver), deliverable(*receiver)),
            decreases
                    MERGE_LIMIT - batch.sends,
                    (if batch.carried is None {
                        1int
                    } else {
                        0int
                    }),
        {
            match try_recv(receiver) {
                Some(command) => {
                    proof {
                        let longer = more.push(command@);
                        assert(longer.drop_last() =~= more);
                        assert(taken(*receiver) =~= taken(before) + longer);
                        more = longer;
                    }
                    batch.join(command);
                },
                None => {
                    assert(drains(before, *receiver, StateView::Send(first), more));
                    return batch;
                },
            }
        }
        assert(drains(before, *receiver, StateView::Send(first), more));
        batch
    }
}

impl WriterStep {
    /// The first step of a command that is carried out by itself.
    pub fn begin(command: State) -> (step: WriterStep)
        ensures
            step@ == begin(command@),
    {
        match command {
            State::Disconnect => WriterStep::Shutdown,
            State::Send(data) => WriterStep::Write { data, next: After::Receive },
            State::SendFlush(data) => WriterStep::Write { data, next: After::Flush },
            State::Flush => WriterStep::Flush,
        }
    }

    /// The step after waiting for a command. `None` says that the channel is closed and empty,
    /// which ends the writer.
    ///
    /// A `Send` is merged with the `Send` commands that wait behind it in the channel.
    pub fn received(
        outcome: Option<State>,
        receiver: &mut async_channel::Receiver<State>,
    ) -> (step: WriterStep)
        ensures
            match outcome {
                None => step@ == StepView::Stop && *final(receiver) == *old(receiver),
                Some(first) => exists|more: Seq<StateView>|
                    #[trigger] drains(*old(receiver), *final(receiver), first@, more) && step@
                        == after_receive(first@, more),
            },
    {
        match outcome {
            None => WriterStep::Stop,
            Some(State::Send(data)) => {
                assert(outcome->0@ == StateView::Send(data@));
                Batch::gather(data, receiver).into_step()
            },
            Some(command) => {
                proof {
                    let none = Seq::<StateView>::empty();
                    assert(taken(*receiver) + none =~= taken(*receiver));
                    assert(drains(*receiver, *receiver, command@, none));
                }
                WriterStep::begin(command)
            },
        }
    }

    /// The step after a write. `next` is what came with the write, and `ok` whether it succeeded.
    pub fn written(next: After, ok: bool) -> (step: WriterStep)
        ensures
            step@ == after_write(next@, ok),
    {
        if !ok {
            return WriterStep::Stop;
        }
        match next {
            After::Receive => WriterStep::Receive,
            After::Flush => WriterStep::Flush,
            After::Command(command) => WriterStep::begin(command),
        }
    }

    /// The step after a flush, by whether it succeeded.
    pub fn flushed(ok: bool) -> (step: WriterStep)
        ensures
            step@ == after_flush(ok),
    {
        if ok {
            WriterStep::Receive
        } else {
            WriterStep::Stop
        }
    }

    /// The step after a shutdown: the end, whether or not it succeeded.
    pub fn shut_down() -> (step: WriterStep)
        ensures
            step@ == StepView::Stop,
    {
        WriterStep::Stop
    }
}

} // verus!
