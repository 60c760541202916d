//! The one failure that a caller can recover from.

use vstd::prelude::*;
use vstd::string::StringExecFns;

verus! {

/// A failure that is handed back to the caller.
#[derive(Clone, Copy, Debug, PartialEq, Eq, Structural)]
pub enum NapiError {
    /// A value of the host could not be read as a string.
    UnableToCreateString,
}

impl NapiError {
    /// The text that the host shows for this failure.
    pub open spec fn spec_message(&self) -> Seq<char> {
        match self {
            NapiError::UnableToCreateString => "unable to create string"@,
        }
    }

    /// The text of the failure, as it is thrown into the host or wrapped in
    /// an error value of the host.
    pub fn message(&self) -> (text: String)
        ensures
            text@ == self.spec_message(),
    {
        match self {
            NapiError::UnableToCreateString => String::from_str("unable to create string"),
        }
    }
}

} // verus!
