use vstd::prelude::*;

verus! {

/// Why a call failed.
#[derive(Clone, Copy, Debug, PartialEq, Eq, Structural)]
pub enum TransferError {
    /// The connection was refused, could not be reached, or its handshake failed.
    Connection,
    /// A message came in the wrong position or with the wrong type.
    ProtocolViolation,
    /// The requested file does not exist under the served directory.
    NotFound,
    /// A disk read or write failed on either side.
    Io,
    /// The peer went away while a producer was still running.
    CancelledByPeer,
}

/// gRPC status code `CANCELLED`.
pub const CODE_CANCELLED: u32 = 1;

/// gRPC status code `INVALID_ARGUMENT`.
pub const CODE_INVALID_ARGUMENT: u32 = 3;

/// gRPC status code `NOT_FOUND`.
pub const CODE_NOT_FOUND: u32 = 5;

/// gRPC status code `INTERNAL`.
pub const CODE_INTERNAL: u32 = 13;

/// gRPC status code `UNAVAILABLE`.
pub const CODE_UNAVAILABLE: u32 = 14;

/// The status code under which an error travels on the wire.
pub open spec fn code_of(e: TransferError) -> u32 {
    match e {
        TransferError::Connection => CODE_UNAVAILABLE,
        TransferError::ProtocolViolation => CODE_INVALID_ARGUMENT,
        TransferError::NotFound => CODE_NOT_FOUND,
        TransferError::Io => CODE_INTERNAL,
        TransferError::CancelledByPeer => CODE_CANCELLED,
    }
}

/// The error a received status code stands for; a code this protocol does
/// not send is read as a failure on the peer's disk.
pub open spec fn error_of_code(code: u32) -> TransferError {
    if code == CODE_UNAVAILABLE {
        TransferError::Connection
    } else if code == CODE_INVALID_ARGUMENT {
        TransferError::ProtocolViolation
    } else if code == CODE_NOT_FOUND {
        TransferError::NotFound
    } else if code == CODE_CANCELLED {
        TransferError::CancelledByPeer
    } else {
        TransferError::Io
    }
}

impl TransferError {
    /// The status code sent to the peer for this error.
    pub fn status_code(&self) -> (r: u32)
        ensures
            r == code_of(*self),
    {
        match self {
            TransferError::Connection => CODE_UNAVAILABLE,
            TransferError::ProtocolViolation => CODE_INVALID_ARGUMENT,
            TransferError::NotFound => CODE_NOT_FOUND,
            TransferError::Io => CODE_INTERNAL,
            TransferError::CancelledByPeer => CODE_CANCELLED,
        }
    }

    /// The error that a status code received from the peer stands for.
    pub fn from_status_code(code: u32) -> (r: TransferError)
        ensures
            r == error_of_code(code),
    {
        if code == CODE_UNAVAILABLE {
            TransferError::Connection
        } else if code == CODE_INVALID_ARGUMENT {
            TransferError::ProtocolViolation
        } else if code == CODE_NOT_FOUND {
            TransferError::NotFound
        } else if code == CODE_CANCELLED {
            TransferError::CancelledByPeer
        } else {
            TransferError::Io
        }
    }
}

/// An error sent as its status code is read back as the same error.
pub proof fn lemma_status_code_round_trip(e: TransferError)
    ensures
        error_of_code(code_of(e)) == e,
{
}

} // verus!
