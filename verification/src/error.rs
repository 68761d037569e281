//! The ways a composition can be refused.

use vstd::prelude::*;

verus! {

/// Why an operation on images was refused.
#[derive(Clone, Copy, Debug, PartialEq, Eq, Structural)]
pub enum Error {
    /// The images handed to one operation differ in width or in height.
    DimensionMismatch,
}

impl Error {
    /// The text of the message for each error.
    pub open spec fn spec_message(self) -> Seq<char> {
        match self {
            Error::DimensionMismatch => "images differ in width or height"@,
        }
    }

    /// A short message that says what went wrong.
    pub fn message(self) -> (s: &'static str)
        ensures
            s@ == self.spec_message(),
    {
        match self {
            Error::DimensionMismatch => "images differ in width or height",
        }
    }
}

} // verus!
