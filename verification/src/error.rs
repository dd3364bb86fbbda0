//! The error type shared by every component of the library.
//!
//! Every terminal condition in the upload pipeline is carried as a
//! `WuffError`, a plain message string.

use vstd::prelude::*;

verus! {

/// An error carrying a diagnostic message.
#[derive(Debug, Clone)]
pub struct WuffError {
    pub message: String,
}

impl WuffError {
    /// Builds an error from a message.
    pub fn new(message: &str) -> (r: WuffError)
        ensures
            r.message@ == message@,
    {
        WuffError { message: message.to_owned() }
    }

    /// Builds an error that takes ownership of the message.
    pub fn from_string(message: String) -> (r: WuffError)
        ensures
            r.message == message,
    {
        WuffError { message }
    }

    /// An exact copy of the error; unlike `clone`, its contract says so.
    pub fn duplicate(&self) -> (r: WuffError)
        ensures
            r == *self,
    {
        WuffError { message: self.message.clone() }
    }

    /// Hands out the message, for callers that report the error.
    pub fn to_message(&self) -> (r: String)
        ensures
            r@ == self.message@,
    {
        self.message.clone()
    }
}

} // verus!
