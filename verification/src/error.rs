use anyhow::Error as AnyhowError;
use crate::channel::send_error_text;
use crate::state::State;
use vstd::prelude::*;

verus! {

/// `std::io::Error`, carried through without being looked into.
#[verifier::external_type_specification]
#[verifier::external_body]
pub struct ExIoError(std::io::Error);

/// `anyhow::Error`, carried through without being looked into.
#[verifier::external_type_specification]
#[verifier::external_body]
pub struct ExAnyhowError(AnyhowError);

/// Why an operation on a client failed.
#[derive(Debug)]
pub enum Error {
    /// The command was not sent: the client is disconnected, or the channel is full or closed.
    SendError(String),
    /// An I/O error of the underlying stream: reading, writing, connecting, a timeout.
    IOError(std::io::Error),
    /// Any other error.
    Error(AnyhowError),
    /// The channel was closed while the command waited for room: the writer task has ended.
    AsyncChannelError(String),
}

pub type Result<T, E = Error> = core::result::Result<T, E>;

/// An [`Error`] as a mathematical value.
#[verifier::ext_equal]
pub enum ErrorView {
    SendError(Seq<char>),
    IOError(std::io::Error),
    Error(AnyhowError),
    AsyncChannelError(Seq<char>),
}

impl View for Error {
    type V = ErrorView;

    open spec fn view(&self) -> ErrorView {
        match self {
            Error::SendError(text) => ErrorView::SendError(text@),
            Error::IOError(error) => ErrorView::IOError(*error),
            Error::Error(error) => ErrorView::Error(*error),
            Error::AsyncChannelError(text) => ErrorView::AsyncChannelError(text@),
        }
    }
}

impl From<std::io::Error> for Error {
    fn from(error: std::io::Error) -> (r: Error) {
        Error::IOError(error)
    }
}

impl vstd::std_specs::convert::FromSpecImpl<std::io::Error> for Error {
    open spec fn obeys_from_spec() -> bool {
        true
    }

    open spec fn from_spec(error: std::io::Error) -> Error {
        Error::IOError(error)
    }
}

impl From<AnyhowError> for Error {
    fn from(error: AnyhowError) -> (r: Error) {
        Error::Error(error)
    }
}

impl vstd::std_specs::convert::FromSpecImpl<AnyhowError> for Error {
    open spec fn obeys_from_spec() -> bool {
        true
    }

    open spec fn from_spec(error: AnyhowError) -> Error {
        Error::Error(error)
    }
}

impl From<async_channel::SendError<State>> for Error {
    fn from(error: async_channel::SendError<State>) -> (r: Error)
        ensures
            r@ == ErrorView::AsyncChannelError("sending into a closed channel"@),
    {
        Error::AsyncChannelError(send_error_text(&error))
    }
}

impl vstd::std_specs::convert::FromSpecImpl<async_channel::SendError<State>> for Error {
    open spec fn obeys_from_spec() -> bool {
        false
    }

    open spec fn from_spec(error: async_channel::SendError<State>) -> Error {
        arbitrary()
    }
}

} // verus!
