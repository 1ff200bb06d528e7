//! Errors of a connection: what kind of failure it was, and what caused it.

use vstd::prelude::*;
use vstd::std_specs::convert::FromSpecImpl;
use crate::parser::ParseError;

verus! {

/// The two kinds of failure. Either ends the connection.
#[derive(Debug, Clone, Copy, PartialEq, Eq, Structural)]
pub enum ErrorKind {
    /// The stream failed, or the peer closed it when more was due.
    Io,
    /// The peer sent what the protocol does not allow.
    Protocol,
}

/// How the stream failed.
#[derive(Debug, Clone, Copy, PartialEq, Eq, Structural)]
pub enum IoFailure {
    /// The peer closed the stream in the middle of a message.
    ConnectionReset,
    /// The other end of a channel or of the stream is gone.
    BrokenPipe,
    /// Any other failure of a read or a write.
    Other,
}

/// What lies under an error.
#[derive(Debug, Clone, Copy, PartialEq, Eq, Structural)]
pub enum Cause {
    Parse(ParseError),
    Io(IoFailure),
}

#[derive(Debug, Clone, Copy, PartialEq, Eq, Structural)]
pub struct Error {
    pub kind: ErrorKind,
    pub cause: Cause,
}

impl Error {
    pub fn new(kind: ErrorKind, cause: Cause) -> (e: Self)
        ensures
            e == (Error { kind, cause }),
    {
        Error { kind, cause }
    }
}

impl From<IoFailure> for Error {
    fn from(err: IoFailure) -> (e: Self) {
        Error::new(ErrorKind::Io, Cause::Io(err))
    }
}

impl FromSpecImpl<IoFailure> for Error {
    open spec fn obeys_from_spec() -> bool {
        true
    }

    open spec fn from_spec(err: IoFailure) -> Error {
        Error { kind: ErrorKind::Io, cause: Cause::Io(err) }
    }
}

impl From<ParseError> for Error {
    fn from(err: ParseError) -> (e: Self) {
        Error::new(ErrorKind::Protocol, Cause::Parse(err))
    }
}

impl FromSpecImpl<ParseError> for Error {
    open spec fn obeys_from_spec() -> bool {
        true
    }

    open spec fn from_spec(err: ParseError) -> Error {
        Error { kind: ErrorKind::Protocol, cause: Cause::Parse(err) }
    }
}

} // verus!
