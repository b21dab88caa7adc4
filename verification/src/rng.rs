//! The random source of the randomised algorithms.
use rand::rngs::Xoshiro256PlusPlus;
use rand::RngExt;
use vstd::prelude::*;

verus! {

/// The generator the algorithms draw from, `rand`'s xoshiro256++.
#[verifier::external_type_specification]
#[verifier::external_body]
pub struct ExXoshiro256PlusPlus(Xoshiro256PlusPlus);

/// `RngExt::random_range(low..high)` on `i64`: an integer drawn uniformly
/// from `low..high`. The call panics on an empty range, hence `low < high`;
/// which value comes out depends on the generator's state, so only the
/// range is stated.
#[verifier::external_body]
pub(crate) fn random_range_i64(rng: &mut Xoshiro256PlusPlus, low: i64, high: i64) -> (r: i64)
    requires
        low < high,
    ensures
        low <= r < high,
{
    rng.random_range(low..high)
}

} // verus!
