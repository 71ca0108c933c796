//! Errors reported by the connection core.
use vstd::prelude::*;

use crate::x11_utils::GenericError;

verus! {

/// Bytes from the server did not have the expected shape.
#[derive(Clone, Copy, Debug, PartialEq, Eq, Structural)]
pub enum ParseError {
    ParseError,
}

/// Failures while establishing a connection.
#[derive(Clone, Copy, Debug, PartialEq, Eq, Structural)]
pub enum ConnectError {
    UnknownError,
    ParseError,
    InvalidScreen,
    ZeroIdMask,
    SetupFailed,
    SetupAuthenticate,
}

/// Failures of an established connection.
#[derive(Clone, Copy, Debug, PartialEq, Eq, Structural)]
pub enum ConnectionError {
    UnknownError,
    FdPassingFailed,
    MaximumRequestLengthExceeded,
    ParseError,
}

/// Failures while waiting for a reply.
#[derive(Debug)]
pub enum ReplyError {
    ConnectionError(ConnectionError),
    /// The server answered with this error.
    X11Error(GenericError),
}

/// Failures while waiting for a reply or allocating a resource ID.
#[derive(Debug)]
pub enum ReplyOrIdError {
    /// The server has no resource IDs left for this client.
    IdsExhausted,
    ConnectionError(ConnectionError),
    X11Error(GenericError),
}

} // verus!
