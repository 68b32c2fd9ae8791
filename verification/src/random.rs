use vstd::prelude::*;
use bracket_lib::random::RandomNumberGenerator;

verus! {

#[verifier::external_type_specification]
#[verifier::external_body]
pub struct ExRandomNumberGenerator(RandomNumberGenerator);

/// `RandomNumberGenerator::range` with the bounds `0` and `n`: a number from
/// `0` up to, and without, `n`. Which one is left open. The call panics on an
/// empty range, which `requires` leaves out.
#[verifier::external_body]
pub(crate) fn random_below(rng: &mut RandomNumberGenerator, n: usize) -> (r: usize)
    requires
        n > 0,
    ensures
        r < n,
{
    rng.range(0, n)
}

/// `RandomNumberGenerator::new`: a generator with a seed of its own choosing.
#[verifier::external_body]
pub(crate) fn fresh_generator() -> RandomNumberGenerator {
    RandomNumberGenerator::new()
}

} // verus!
