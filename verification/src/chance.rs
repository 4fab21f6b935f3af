//! The random source of the engine.

use vstd::prelude::*;

verus! {

/// `turborand::rng::Rng`, carried as it is.
#[verifier::external_type_specification]
#[verifier::external_body]
pub struct ExRng(turborand::rng::Rng);

/// `Rng::clone`: a random source of its own.
#[verifier::external_body]
pub(crate) fn clone_rng(rng: &turborand::rng::Rng) -> turborand::rng::Rng {
    rng.clone()
}

/// `TurboRand::sample_iter` on the range of indices below `len`: no index
/// where the range is empty, else one of its indices, chosen at random.
#[verifier::external_body]
pub(crate) fn sample_index(rng: &turborand::rng::Rng, len: usize) -> (r: Option<usize>)
    ensures
        len == 0 ==> r is None,
        len > 0 ==> r is Some,
        r matches Some(i) ==> i < len,
{
    turborand::TurboRand::sample_iter(rng, 0..len)
}

/// `Rng::default`: a random source with a seed of its own.
#[verifier::external_body]
pub(crate) fn new_rng() -> turborand::rng::Rng {
    turborand::rng::Rng::default()
}

/// Whether a draw among `len` choices can have come out as `draw`.
pub open spec fn draw_fits(draw: Option<int>, len: int) -> bool {
    match draw {
        Some(k) => 0 <= k < len,
        None => len == 0,
    }
}

} // verus!
