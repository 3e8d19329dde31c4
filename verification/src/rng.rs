//! The random-number source used to fill matrices: nanorand's `WyRand`
//! generator, injected by the caller so that a fixed seed gives a
//! reproducible fill.

use vstd::prelude::*;
use nanorand::{Rng, WyRand};

verus! {

#[verifier::external_type_specification]
#[verifier::external_body]
pub struct ExWyRand(WyRand);

/// Relies on nanorand's `Rng::generate_range` over an inclusive `i64`
/// range: the drawn value lies within the bounds. The generator panics when
/// the range is empty, so an empty range is excluded here.
#[verifier::external_body]
pub(crate) fn draw_in_range(rng: &mut WyRand, min: i64, max: i64) -> (r: i64)
    requires
        min <= max,
    ensures
        min <= r <= max,
{
    rng.generate_range(min..=max)
}

} // verus!
