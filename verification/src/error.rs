//! The library's failure type: a message describing what went wrong.

use vstd::prelude::*;

verus! {

/// A parse failure, carrying a human-readable message.
#[derive(Debug, Clone, PartialEq, Eq)]
pub struct Error(String);

impl View for Error {
    type V = Seq<char>;

    closed spec fn view(&self) -> Seq<char> {
        self.0@
    }
}

impl Error {
    pub fn new(item: &str) -> (r: Error)
        ensures
            r@ == item@,
    {
        Error(item.to_owned())
    }

    /// The message carried by this failure.
    pub fn message(&self) -> (r: &str)
        ensures
            r@ == self@,
    {
        self.0.as_str()
    }
}

} // verus!
