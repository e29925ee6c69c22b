//! The library's error type.
//!
//! An error either carries a message meant for the application user
//! (`Friendly`) or one meant only for a log (`Unfriendly`). Drawing
//! operations report broken drawing contracts — mismatched series
//! lengths, oversized canvases — as unfriendly errors: they are caller
//! bugs, not conditions a user can mend.

use vstd::prelude::*;

verus! {

/// A plain text payload for errors that are logged, never shown.
#[derive(Debug)]
pub struct CustomError(String);

impl CustomError {
    pub closed spec fn spec_text(&self) -> Seq<char> {
        self.0@
    }

    pub fn new(text: String) -> (r: CustomError)
        ensures
            r.spec_text() == text@,
    {
        CustomError(text)
    }

    pub fn text(&self) -> (r: &str)
        ensures
            r@ == self.spec_text(),
    {
        self.0.as_str()
    }
}

/// A message to be sent to the application user, or one to be logged
/// and kept from the user.
#[derive(Debug)]
pub enum Error {
    /// An error message to be sent to the application user.
    Friendly(String),
    /// An error message to be logged but not sent to the application user.
    Unfriendly(CustomError),
}

impl Error {
    /// An error message to be sent to the application user.
    pub fn friendly(text: String) -> (r: Error)
        ensures
            r matches Error::Friendly(t) && t@ == text@,
    {
        Error::Friendly(text)
    }

    /// A custom message to be logged but not sent to the application user.
    pub fn custom_unfriendly(text: String) -> (r: Error)
        ensures
            r matches Error::Unfriendly(e) && e.spec_text() == text@,
    {
        Error::Unfriendly(CustomError::new(text))
    }

    /// The carried message, whichever audience it is meant for.
    pub fn message(&self) -> (r: &str)
        ensures
            self matches Error::Friendly(t) ==> r@ == t@,
            self matches Error::Unfriendly(e) ==> r@ == e.spec_text(),
    {
        match self {
            Error::Friendly(text) => text.as_str(),
            Error::Unfriendly(error) => error.text(),
        }
    }
}

} // verus!
