use vstd::prelude::*;

verus! {

/// Why a publish failed.
#[derive(Debug)]
pub enum PublishError {
    NotConnected,
    Disconnected,
    /// The payload could not be serialized; sending it again cannot help.
    SerializationError(String),
    Other(String),
}

impl PublishError {
    /// Whether sending again may succeed: every kind but a serialization
    /// failure.
    pub open spec fn retryable(&self) -> bool {
        !(self is SerializationError)
    }

    pub fn is_retryable(&self) -> (r: bool)
        ensures
            r == self.retryable(),
    {
        match self {
            PublishError::SerializationError(_) => false,
            _ => true,
        }
    }
}

} // verus!
