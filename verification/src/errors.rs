use vstd::prelude::*;
use vstd::string::StringExecFns;

use crate::sheep::Tattoo;
use crate::text::dec_digits;
use crate::text::u64_to_string;

verus! {

/// What can go wrong when talking to a sheep shed.
#[derive(Debug)]
pub enum Error {
    /// A kill was attempted on a tattoo that no sheep in the shed wears.
    SheepNotPresent(Tattoo),
    /// An add was attempted with a tattoo that a sheep in the shed already
    /// wears.
    SheepDuplicationError(Tattoo),
    /// Any other backend failure, with the backend's own words.
    GenericError(String),
}

/// The words an [`Error`] prints.
pub open spec fn spec_error_message(e: Error) -> Seq<char> {
    match e {
        Error::SheepNotPresent(t) => "Sheep is not in the shed: "@ + dec_digits(t.0 as nat),
        Error::SheepDuplicationError(t) => "Sheep already in the shed: "@ + dec_digits(t.0 as nat),
        Error::GenericError(s) => "Generic error: "@ + s@,
    }
}

impl Error {
    /// Print the error in words.
    pub fn message(&self) -> (r: String)
        ensures
            r@ == spec_error_message(*self),
    {
        match self {
            Error::SheepNotPresent(t) => {
                let mut s = "Sheep is not in the shed: ".to_owned();
                s.append(u64_to_string(t.0).as_str());
                s
            },
            Error::SheepDuplicationError(t) => {
                let mut s = "Sheep already in the shed: ".to_owned();
                s.append(u64_to_string(t.0).as_str());
                s
            },
            Error::GenericError(m) => {
                let mut s = "Generic error: ".to_owned();
                s.append(m.as_str());
                s
            },
        }
    }
}

} // verus!
