use vstd::prelude::*;

use rand::Rng;

verus! {

/// The layout's random number generator.
#[verifier::external_type_specification]
#[verifier::external_body]
pub struct ExWyRand(wyrand::WyRand);

/// Calls `rand::Rng::gen_range(low..=high)` on the generator. The rand crate panics on an
/// empty range and otherwise returns a value inside the range; which value, and the state
/// the generator is left in, depend on the generator and are not stated.
#[verifier::external_body]
pub(crate) fn gen_range_inclusive(rng: &mut wyrand::WyRand, low: usize, high: usize) -> (r: usize)
    requires
        low <= high,
    ensures
        low <= r <= high,
{
    rng.gen_range(low..=high)
}

/// An index into a collection of `len` items: the only index when there is one,
/// otherwise one drawn from the generator (which is then advanced).
pub fn choose_index(rng: &mut wyrand::WyRand, len: usize) -> (r: usize)
    requires
        len > 0,
    ensures
        r < len,
        len == 1 ==> r == 0,
{
    if len == 1 {
        0
    } else {
        gen_range_inclusive(rng, 0, len - 1)
    }
}

} // verus!
