use vstd::prelude::*;

verus! {

/// Draws a pseudo-random integer in `[0, high)` from macroquad's global
/// generator (`macroquad::rand::gen_range`, which is `quad_rand::gen_range`).
///
/// The generator scales a 32-bit draw `r` by `high` as `(high * (r / 2^32))`
/// in `f64` and truncates; with a low bound of zero the product stays below
/// `high`, so the result is below `high` whenever `high > 0`, and is `0` when
/// `high == 0`. Which value comes back depends on the generator's state and
/// is not stated.
#[verifier::external_body]
pub(crate) fn random_below(high: u32) -> (r: u32)
    ensures
        high > 0 ==> r < high,
        high == 0 ==> r == 0,
{
    macroquad::rand::gen_range(0u32, high)
}

} // verus!
