//! Error types for the boundary: malformed host input and unusable
//! microphone configurations.

use vstd::prelude::*;

verus! {

/// Returned when bytes handed across the boundary cannot be decoded as
/// the expected shape. Carries a diagnostic description.
#[derive(Debug)]
pub struct DeserializeError(pub String);

impl DeserializeError {
    /// Wraps a diagnostic description.
    pub fn new(msg: &str) -> (e: DeserializeError)
        ensures
            e.0@ == msg@,
    {
        DeserializeError(String::from_str(msg))
    }

    /// The diagnostic text.
    pub fn message(&self) -> (m: &String)
        ensures
            m@ == self.0@,
    {
        &self.0
    }
}

/// Returned when the platform microphone is missing or rejects the
/// requested stream configuration. Carries a diagnostic description.
#[derive(Debug)]
pub struct MicrophoneConfigError(pub String);

impl MicrophoneConfigError {
    /// The diagnostic text.
    pub fn message(&self) -> (m: &String)
        ensures
            m@ == self.0@,
    {
        &self.0
    }
}

} // verus!
