//! A plain textual error, for callers that only report.

use vstd::prelude::*;

verus! {

/// An error reduced to its message.
pub struct AnyError {
    message: String,
}

impl View for AnyError {
    type V = Seq<char>;

    closed spec fn view(&self) -> Seq<char> {
        self.message@
    }
}

impl AnyError {
    /// Wraps a message.
    pub fn new(message: String) -> (r: Self)
        ensures
            r@ == message@,
    {
        AnyError { message }
    }

    /// The message.
    pub fn message(&self) -> (r: &String)
        ensures
            r@ == self@,
    {
        &self.message
    }
}

/// A result whose error carries only a message.
pub type AnyResult<T> = Result<T, AnyError>;

} // verus!
