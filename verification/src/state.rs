use vstd::prelude::*;

verus! {

/// A command on its way to the writer task.
///
/// The four variants are the four operations on the write half of a connection. The writer
/// carries them out in first-in, first-out order.
#[derive(Debug)]
pub enum State {
    /// Shut the write half down and end the writer task.
    Disconnect,
    /// Write the bytes without flushing, which leaves small packets to be merged on the way.
    Send(Vec<u8>),
    /// Write the bytes and flush at once, so that they reach the peer as soon as possible.
    SendFlush(Vec<u8>),
    /// Flush the write buffer without writing anything new.
    Flush,
}

/// A [`State`] as a mathematical value.
#[verifier::ext_equal]
pub enum StateView {
    Disconnect,
    Send(Seq<u8>),
    SendFlush(Seq<u8>),
    Flush,
}

impl View for State {
    type V = StateView;

    open spec fn view(&self) -> StateView {
        match self {
            State::Disconnect => StateView::Disconnect,
            State::Send(data) => StateView::Send(data@),
            State::SendFlush(data) => StateView::SendFlush(data@),
            State::Flush => StateView::Flush,
        }
    }
}

} // verus!
