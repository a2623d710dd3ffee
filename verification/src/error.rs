use vstd::prelude::*;

verus! {

/// Errors returned by the omnibus message bus.
#[derive(Debug, Clone, Copy, PartialEq, Eq, Structural)]
pub enum OmnibusError {
    /// The channel was disconnected; all senders have been dropped.
    Disconnected,
    /// An internal lock was poisoned by a panic in another thread.
    Poisoned,
}

/// Convenience alias for `Result<T, OmnibusError>`.
pub type Result<T> = core::result::Result<T, OmnibusError>;

impl OmnibusError {
    /// The human-readable message of each error.
    pub open spec fn message(self) -> Seq<char> {
        match self {
            OmnibusError::Disconnected => "channel disconnected"@,
            OmnibusError::Poisoned => "internal lock poisoned"@,
        }
    }

    /// Renders the error as its human-readable message.
    pub fn to_string(&self) -> (s: String)
        ensures
            s@ == self.message(),
    {
        match self {
            OmnibusError::Disconnected => String::from_str("channel disconnected"),
            OmnibusError::Poisoned => String::from_str("internal lock poisoned"),
        }
    }
}

} // verus!
