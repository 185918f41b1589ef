//! The seeded random source that scatters the particles.

use rand::rngs::SmallRng;
use rand::Rng;
use rand::SeedableRng;
use vstd::prelude::*;

verus! {

/// `rand::rngs::SmallRng`, carried through the crate as an opaque value.
#[verifier::external_type_specification]
#[verifier::external_body]
pub struct ExSmallRng(rand::rngs::SmallRng);

/// Calls `SmallRng::seed_from_u64`. Nothing is claimed of the generator
/// that comes back.
#[verifier::external_body]
pub(crate) fn seeded(seed: u64) -> (rng: SmallRng) {
    SmallRng::seed_from_u64(seed)
}

/// Calls `Rng::gen_range` on the half-open range `low..high`. The call
/// panics on an empty range, which `requires` leaves out; the value it
/// returns lies in the range.
#[verifier::external_body]
pub(crate) fn draw(rng: &mut SmallRng, low: i32, high: i32) -> (value: i32)
    requires
        low < high,
    ensures
        low <= value < high,
{
    rng.gen_range(low..high)
}

} // verus!
