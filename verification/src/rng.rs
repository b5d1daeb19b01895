//! The engine's one source of randomness: uniform integers drawn from a
//! seedable generator of the `rand` crate at setup time.

use vstd::prelude::*;

verus! {

#[verifier::external_type_specification]
#[verifier::external_body]
pub struct ExStdRng(rand::rngs::StdRng);

/// Relies on rand's `Rng::gen_range` over `low..high`: it returns a
/// uniformly sampled value of that half-open range and panics only when the
/// range is empty, which the precondition rules out. The value is random, so
/// nothing beyond the bounds is assumed.
#[verifier::external_body]
pub fn gen_range_i64(rng: &mut rand::rngs::StdRng, low: i64, high: i64) -> (r: i64)
    requires
        low < high,
    ensures
        low <= r < high,
{
    rand::Rng::gen_range(rng, low..high)
}

} // verus!
