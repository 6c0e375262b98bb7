//! Error taxonomy of the driver.

use vstd::prelude::*;

verus! {

/// Everything that can go wrong while establishing or using the link.
///
/// Enumeration, not-found and open failures are fatal to startup; read and
/// write failures are logged and tolerated mid-session; `ChannelClosed` is
/// returned to a caller that tries to send after the owner task has
/// terminated.
#[derive(Debug, Clone, Copy, PartialEq, Eq, Structural)]
pub enum MorpheusError {
    FailedToEnumerate,
    PortNotFound,
    CannotOpenPort,
    FailedToRead,
    FailedToWrite,
    ChannelClosed,
    NotImplemented,
}

/// The human-readable message for each error kind.
pub open spec fn error_message(e: MorpheusError) -> Seq<char> {
    match e {
        MorpheusError::FailedToEnumerate => "Failed to enumerate ports"@,
        MorpheusError::PortNotFound => "Port not found"@,
        MorpheusError::CannotOpenPort => "Can't open port"@,
        MorpheusError::FailedToRead => "Failed to read"@,
        MorpheusError::FailedToWrite => "Failed to write"@,
        MorpheusError::ChannelClosed => "Channel closed"@,
        MorpheusError::NotImplemented => "Not implemented"@,
    }
}

impl MorpheusError {
    /// The startup error message shown to the user.
    pub fn to_string(&self) -> (r: String)
        ensures
            r@ == error_message(*self),
    {
        match self {
            Self::FailedToEnumerate => "Failed to enumerate ports".to_string(),
            Self::PortNotFound => "Port not found".to_string(),
            Self::CannotOpenPort => "Can't open port".to_string(),
            Self::FailedToRead => "Failed to read".to_string(),
            Self::FailedToWrite => "Failed to write".to_string(),
            Self::ChannelClosed => "Channel closed".to_string(),
            Self::NotImplemented => "Not implemented".to_string(),
        }
    }
}

} // verus!
