use vstd::prelude::*;
use vstd::string::StringExecFns;
use vstd::string::StringSliceAdditionalSpecFns;

use crate::apigw::SimpleError;
use crate::parse::digits_value;
use crate::parse::parse_u64;
use crate::parse::spec_number_body;
use crate::parse::spec_valid_u64;
use crate::random::generate_random_weight;
use crate::shed::SheepShed;
use crate::shed::has_tattoo;
use crate::sheep::MAX_WEIGHT_UG;
use crate::sheep::MIN_WEIGHT_UG;
use crate::sheep::Sheep;
use crate::sheep::Tattoo;

verus! {

/// The number of sheep in the shed, classified for the HTTP layer.
pub fn get_count<T: SheepShed>(shed: &T) -> (r: Result<usize, SimpleError>)
    requires
        shed.wf(),
    ensures
        match r {
            Ok(c) => c == shed.flock().len(),
            Err(SimpleError::ServerError(m)) => m@ == "Please try again later"@,
            Err(_) => false,
        },
{
    match shed.sheep_count() {
        Ok(c) => Ok(c),
        Err(e) => Err(SimpleError::from_shed_error(e)),
    }
}

/// Add a sheep with the tattoo the caller spelled out and a random weight.
///
/// The tattoo must spell an unsigned decimal number; anything else is the
/// caller's mistake and is rejected before the shed is touched, as is a
/// tattoo already worn. On success the new sheep, weighing somewhere between
/// the creation bounds, is the one appended to the flock.
pub fn insert_sheep<T: SheepShed>(shed: &mut T, tattoo_text: &str) -> (r: Result<
    Sheep,
    SimpleError,
>)
    requires
        old(shed).wf(),
    ensures
        final(shed).wf(),
        !spec_valid_u64(tattoo_text.spec_bytes()) ==> (r matches Err(SimpleError::InvalidInput(_))),
        match r {
            Ok(s) => {
                &&& spec_valid_u64(tattoo_text.spec_bytes())
                &&& s.tattoo.0 == digits_value(spec_number_body(tattoo_text.spec_bytes()))
                &&& MIN_WEIGHT_UG <= s.weight@ < MAX_WEIGHT_UG
                &&& !has_tattoo(old(shed).flock(), s.tattoo.0)
                &&& final(shed).flock() == old(shed).flock().push(s)
            },
            Err(SimpleError::InvalidInput(_)) => {
                &&& final(shed).flock() == old(shed).flock()
                &&& (!spec_valid_u64(tattoo_text.spec_bytes()) || has_tattoo(
                    old(shed).flock(),
                    digits_value(spec_number_body(tattoo_text.spec_bytes())) as u64,
                ))
            },
            Err(SimpleError::ServerError(_)) => final(shed).flock() == old(shed).flock(),
            Err(_) => false,
        },
{
    let tattoo = match parse_u64(tattoo_text) {
        Some(v) => Tattoo(v),
        None => {
            let mut m = "Tattoo parameter ".to_owned();
            m.append(tattoo_text);
            m.append(" could not be parsed");
            return Err(SimpleError::InvalidInput(m));
        },
    };
    let sheep = Sheep { tattoo, weight: generate_random_weight() };
    match shed.add_sheep(sheep) {
        Ok(()) => Ok(sheep),
        Err(e) => Err(SimpleError::from_shed_error(e)),
    }
}

} // verus!
