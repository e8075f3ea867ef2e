//! The error type of the program around the library.

use vstd::prelude::*;

verus! {

/// An error with a message.
#[derive(Debug)]
pub enum Error {
    Generic(String),
}

impl Error {
    /// The text of the error: the message it was made with.
    pub open spec fn spec_message(&self) -> Seq<char> {
        match self {
            Error::Generic(msg) => msg@,
        }
    }

    /// The text of the error, as it is shown to the user.
    pub fn message(&self) -> (text: String)
        ensures
            text@ == self.spec_message(),
    {
        match self {
            Error::Generic(msg) => msg.clone(),
        }
    }
}

} // verus!
