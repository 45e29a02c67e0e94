//! The source of randomness: a seedable generator of the `rand` crate, passed
//! explicitly into every stochastic operation.
use rand::rngs::StdRng;
use rand::Rng;
use vstd::prelude::*;

verus! {

/// The generator of the `rand` crate, carried through the library unopened.
#[verifier::external_type_specification]
#[verifier::external_body]
pub struct ExStdRng(StdRng);

/// Relies on `rand::Rng::gen_range` over the inclusive range `low..=high`: it
/// panics only when the range is empty (`low > high`) and otherwise returns a
/// value of that range.
#[verifier::external_body]
pub(crate) fn random_in(rng: &mut StdRng, low: i128, high: i128) -> (r: i128)
    requires
        low <= high,
    ensures
        low <= r <= high,
{
    rng.gen_range(low..=high)
}

} // verus!
