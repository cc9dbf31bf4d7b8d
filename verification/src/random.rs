use vstd::prelude::*;

use rand::Rng;

use crate::sheep::MAX_WEIGHT_UG;
use crate::sheep::MIN_WEIGHT_UG;
use crate::sheep::Weight;

verus! {

/// Relies on `rand::Rng::gen_range` on the thread-local generator: the
/// sample lies in the given half-open range. The call panics on an empty
/// range, so a non-empty one is required.
#[verifier::external_body]
fn random_u64_in(lo: u64, hi: u64) -> (r: u64)
    requires
        lo < hi,
    ensures
        lo <= r < hi,
{
    rand::thread_rng().gen_range(lo..hi)
}

/// Draw a random weight for a new sheep, between the smallest and the
/// largest weight a sheep is created with.
pub fn generate_random_weight() -> (r: Weight)
    ensures
        MIN_WEIGHT_UG <= r@ < MAX_WEIGHT_UG,
{
    Weight::from_ug(random_u64_in(MIN_WEIGHT_UG, MAX_WEIGHT_UG))
}

} // verus!
