use vstd::prelude::*;

use crate::errors::Error;
use crate::sheep::Tattoo;

verus! {

/// Classify the backend's answer to a conditional put with precondition
/// "key absent": a precondition failure means the tattoo is already taken,
/// anything else is a generic backend failure carried verbatim.
pub fn classify_conditional_put(condition_failed: bool, detail: String, tattoo: Tattoo) -> (r:
    Error)
    ensures
        r == if condition_failed {
            Error::SheepDuplicationError(tattoo)
        } else {
            Error::GenericError(detail)
        },
{
    if condition_failed {
        Error::SheepDuplicationError(tattoo)
    } else {
        Error::GenericError(detail)
    }
}

/// Classify the backend's answer to a conditional delete with precondition
/// "key present": a precondition failure means no sheep wears the tattoo,
/// anything else is a generic backend failure carried verbatim.
pub fn classify_conditional_delete(condition_failed: bool, detail: String, tattoo: Tattoo) -> (r:
    Error)
    ensures
        r == if condition_failed {
            Error::SheepNotPresent(tattoo)
        } else {
            Error::GenericError(detail)
        },
{
    if condition_failed {
        Error::SheepNotPresent(tattoo)
    } else {
        Error::GenericError(detail)
    }
}

/// Classify a failure of a plain segment read. No precondition rides on a
/// read, so every failure is the backend's own, carried verbatim; a single
/// failing segment aborts the whole scan with it.
pub fn classify_scan_failure(detail: String) -> (r: Error)
    ensures
        r == Error::GenericError(detail),
{
    Error::GenericError(detail)
}

} // verus!
