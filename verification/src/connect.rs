//! The result of an attempt to connect.
//!
//! An attempt has up to three stages: the TCP connection, which may have a time limit, the address
//! of the peer, and, where the stream is to be wrapped, the wrapping. The first stage that fails
//! gives the error.
use crate::error::{Error, Result};
use anyhow::Error as AnyhowError;
use vstd::prelude::*;

verus! {

/// The kinds of I/O error that this library makes.
#[derive(Debug)]
pub enum IoErrorKind {
    /// `std::io::ErrorKind::TimedOut`.
    TimedOut,
}

/// The kind of an I/O error, `None` for one that is not an [`IoErrorKind`].
pub uninterp spec fn io_error_kind(error: std::io::Error) -> Option<IoErrorKind>;

/// The text that an I/O error displays.
pub uninterp spec fn io_error_text(error: std::io::Error) -> Seq<char>;

/// Calls `std::io::Error::new`.
///
/// Believed of it: the error is of the kind given, and displays the message.
#[verifier::external_body]
fn io_error(kind: IoErrorKind, message: &str) -> (error: std::io::Error)
    ensures
        io_error_kind(error) == Some(kind),
        io_error_text(error) == message@,
{
    match kind {
        IoErrorKind::TimedOut => std::io::Error::new(std::io::ErrorKind::TimedOut, message),
    }
}

/// The result of a stage that does I/O, without a time limit.
pub open spec fn of_io<T>(outcome: core::result::Result<T, std::io::Error>) -> Result<T> {
    match outcome {
        Ok(value) => Ok(value),
        Err(error) => Err(Error::IOError(error)),
    }
}

/// The result of wrapping the stream.
pub open spec fn of_wrapping<T>(outcome: core::result::Result<T, AnyhowError>) -> Result<T> {
    match outcome {
        Ok(value) => Ok(value),
        Err(error) => Err(Error::Error(error)),
    }
}

/// Whether `result` is the result of a stage with a time limit. `None` says that the time ran out
/// first, which is an I/O error of its own.
pub open spec fn is_of_limited<T>(
    attempt: Option<core::result::Result<T, std::io::Error>>,
    result: Result<T>,
) -> bool {
    match attempt {
        Some(outcome) => result == of_io(outcome),
        None => result matches Err(Error::IOError(error)) && io_error_kind(error) == Some(
            IoErrorKind::TimedOut,
        ) && io_error_text(error) == "connection timed out"@,
    }
}

/// Decides the result of a stage that does I/O, without a time limit.
pub fn io_result<T>(outcome: core::result::Result<T, std::io::Error>) -> (result: Result<T>)
    ensures
        result == of_io(outcome),
{
    match outcome {
        Ok(value) => Ok(value),
        Err(error) => Err(Error::from(error)),
    }
}

/// Decides the result of connecting within a time limit. `None` says that the time ran out first.
pub fn within_timeout<T>(
    attempt: Option<core::result::Result<T, std::io::Error>>,
) -> (result: Result<T>)
    ensures
        is_of_limited(attempt, result),
{
    match attempt {
        Some(outcome) => io_result(outcome),
        None => Err(Error::from(io_error(IoErrorKind::TimedOut, "connection timed out"))),
    }
}

/// The result of the first two stages, once there is a TCP connection.
pub open spec fn of_peer<Tcp, Addr>(
    tcp: Tcp,
    peer: core::result::Result<Addr, std::io::Error>,
) -> Result<(Tcp, Addr)> {
    match of_io(peer) {
        Ok(addr) => Ok((tcp, addr)),
        Err(error) => Err(error),
    }
}

/// The result of connecting as a whole: that of the first stage that fails, or the wrapped stream
/// with the address of the peer.
pub open spec fn of_stages<Tcp, Addr, Stream>(
    tcp: Result<Tcp>,
    peer: core::result::Result<Addr, std::io::Error>,
    wrapping: core::result::Result<Stream, AnyhowError>,
) -> Result<(Stream, Addr)> {
    match tcp {
        Err(error) => Err(error),
        Ok(stream) => match of_peer(stream, peer) {
            Err(error) => Err(error),
            Ok((_, addr)) => match of_wrapping(wrapping) {
                Err(error) => Err(error),
                Ok(wrapped) => Ok((wrapped, addr)),
            },
        },
    }
}

/// Decides the result of the first two stages, once there is a TCP connection. An error is the
/// result as a whole, and the stream need not be wrapped then.
pub fn with_peer<Tcp, Addr>(
    tcp: Tcp,
    peer: core::result::Result<Addr, std::io::Error>,
) -> (result: Result<(Tcp, Addr)>)
    ensures
        result == of_peer(tcp, peer),
{
    match io_result(peer) {
        Ok(addr) => Ok((tcp, addr)),
        Err(error) => Err(error),
    }
}

/// Decides the result of connecting as a whole, once there is a TCP connection to a peer with the
/// address `peer`, from what wrapping the stream came to.
pub fn with_stream<Addr, Stream>(
    peer: Addr,
    wrapping: core::result::Result<Stream, AnyhowError>,
) -> (result: Result<(Stream, Addr)>)
    ensures
        result == of_stages(Ok::<(), Error>(()), Ok::<Addr, std::io::Error>(peer), wrapping),
{
    match wrapping {
        Ok(stream) => Ok((stream, peer)),
        Err(error) => Err(Error::from(error)),
    }
}

/// The time limit is one for the TCP connection only: where that ended in time, whatever the other
/// stages come to and however long they take, the result is the same as without a limit.
pub proof fn law_limit_is_on_tcp_only<Tcp, Addr, Stream>(
    outcome: core::result::Result<Tcp, std::io::Error>,
    tcp: Result<Tcp>,
    peer: core::result::Result<Addr, std::io::Error>,
    wrapping: core::result::Result<Stream, AnyhowError>,
)
    requires
        is_of_limited(Some(outcome), tcp),
    ensures
        of_stages(tcp, peer, wrapping) == of_stages(of_io(outcome), peer, wrapping),
{
}

/// Where the time runs out, connecting fails with the timeout, and no other stage counts.
pub proof fn law_timeout_is_the_result<Tcp, Addr, Stream>(
    tcp: Result<Tcp>,
    peer: core::result::Result<Addr, std::io::Error>,
    wrapping: core::result::Result<Stream, AnyhowError>,
)
    requires
        is_of_limited(None, tcp),
    ensures
        is_of_limited(None, of_stages(tcp, peer, wrapping)),
{
}

/// Connecting succeeds exactly where every stage does, with the stream and the address that the
/// stages came to. Otherwise it fails with the error of the first stage that does, unchanged.
pub proof fn law_first_failure_is_the_result<Tcp, Addr, Stream>(
    tcp: core::result::Result<Tcp, std::io::Error>,
    peer: core::result::Result<Addr, std::io::Error>,
    wrapping: core::result::Result<Stream, AnyhowError>,
)
    ensures
        ({
            let result = of_stages(of_io(tcp), peer, wrapping);
            match (tcp, peer, wrapping) {
                (Err(error), _, _) => result == Err::<(Stream, Addr), Error>(Error::IOError(error)),
                (Ok(_), Err(error), _) => result == Err::<(Stream, Addr), Error>(
                    Error::IOError(error),
                ),
                (Ok(_), Ok(_), Err(error)) => result == Err::<(Stream, Addr), Error>(
                    Error::Error(error),
                ),
                (Ok(_), Ok(addr), Ok(stream)) => result == Ok::<(Stream, Addr), Error>(
                    (stream, addr),
                ),
            }
        }),
        tcp matches Ok(stream) ==> (peer matches Ok(addr) ==> of_peer(stream, peer) == Ok::<
            (Tcp, Addr),
            Error,
        >((stream, addr))),
{
}

/// A time limit changes the result only where the time runs out, and then it is an error of the
/// kind for that.
pub proof fn law_timeout_is_an_io_error<T>(
    attempt: Option<core::result::Result<T, std::io::Error>>,
    result: Result<T>,
)
    requires
        is_of_limited(attempt, result),
    ensures
        attempt is None ==> (result matches Err(Error::IOError(error)) && io_error_kind(error)
            == Some(IoErrorKind::TimedOut)),
        attempt matches Some(Ok(value)) ==> result == Ok::<T, Error>(value),
        attempt matches Some(Err(error)) ==> result == Err::<T, Error>(Error::IOError(error)),
{
}

} // verus!
