//! Errors reported by the library.
use vstd::prelude::*;

verus! {

/// The category of a low-level read or write failure.
#[derive(Debug, Clone, Copy, PartialEq, Eq, Structural)]
pub enum IoErrorKind {
    /// The data ended before the requested bytes could be read.
    UnexpectedEof,
    /// The data read does not follow the expected encoding.
    InvalidData,
    /// A value handed to a writer cannot be encoded.
    InvalidInput,
    /// A name could not be resolved.
    NotFound,
    /// The operation did not finish in time.
    TimedOut,
    /// Any other failure.
    Other,
}

/// A low-level read or write failure, with a human-readable message.
#[derive(Debug, Clone)]
pub struct IoError {
    pub kind: IoErrorKind,
    pub message: String,
}

impl IoError {
    /// Builds an error of the given kind with the given message.
    pub fn new(kind: IoErrorKind, message: String) -> (r: IoError)
        ensures
            r.kind == kind,
            r.message@ == message@,
    {
        IoError { kind, message }
    }
}

/// Represents all possible errors that can occur when querying a Minecraft server.
#[derive(Debug, Clone)]
pub enum McStatusError {
    /// An I/O error occurred during network communication.
    Io(IoError),
    /// Failed to parse JSON from the server response.
    Json(String),
    /// The server responded with data that violates the expected protocol.
    Protocol(String),
    /// DNS resolution failed.
    Dns(String),
    /// The connection timed out before receiving a response.
    Timeout,
    /// The server's response was malformed or missing required fields.
    InvalidResponse(String),
    /// The server did not respond with any information.
    NoResponse,
    /// The provided address is invalid.
    InvalidAddress(String),
    /// A UTF-8 decoding error occurred.
    Utf8(String),
    /// Failed to parse an integer from a string.
    ParseInt(String),
    /// A catch-all for other error conditions.
    Other(String),
}

} // verus!
