//! The error type shared by the whole library.

use vstd::prelude::*;

verus! {

/// An error of the logging library, carrying a human-readable message.
#[derive(Clone, Debug, PartialEq, Eq)]
pub enum LogError {
    E(String),
}

impl LogError {
    /// The message carried by this error.
    pub open spec fn spec_message(&self) -> Seq<char> {
        match self {
            LogError::E(s) => s@,
        }
    }

    /// Build an error from a borrowed message.
    pub fn of(msg: &str) -> (r: LogError)
        ensures
            r.spec_message() == msg@,
    {
        LogError::E(msg.to_owned())
    }

    /// The message carried by this error.
    pub fn message(&self) -> (r: &String)
        ensures
            r@ == self.spec_message(),
    {
        match self {
            LogError::E(s) => s,
        }
    }
}

impl Default for LogError {
    /// An error with an empty message.
    fn default() -> (r: Self)
        ensures
            r.spec_message() == Seq::<char>::empty(),
    {
        LogError::E(String::new())
    }
}

} // verus!
