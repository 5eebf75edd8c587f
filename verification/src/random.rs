//! Random draws. Everything the game takes from the `rand` crate passes
//! through this module; the contracts of the items marked as trusted here are
//! believed, not proved.

use crate::model::Position;
use vstd::prelude::*;

verus! {

/// `rand::rngs::ThreadRng`, the generator of the current thread. Nothing is
/// known of its state.
#[verifier::external_type_specification]
#[verifier::external_body]
pub struct ExThreadRng(rand::rngs::ThreadRng);

/// `rand::thread_rng` hands out the generator of the current thread. Nothing
/// is claimed of it. (It fails only where the operating system cannot seed
/// the generator.)
pub assume_specification[ rand::thread_rng ]() -> (rng: rand::rngs::ThreadRng)
;

/// Trusted: `Rng::gen_range` on the half-open range `0..bound`. For a
/// non-empty range it returns a member of the range; on an empty one it
/// panics, which `requires` rules out. Which member comes back is left open.
#[verifier::external_body]
pub(crate) fn gen_below(rng: &mut rand::rngs::ThreadRng, bound: usize) -> (n: usize)
    requires
        bound > 0,
    ensures
        n < bound,
{
    rand::Rng::gen_range(rng, 0..bound)
}

/// Trusted: `IteratorRandom::choose` on the items of `candidates`. It returns
/// `None` exactly when there is no candidate, and otherwise one of the
/// candidates. Which one comes back is left open.
#[verifier::external_body]
pub(crate) fn choose_among(
    rng: &mut rand::rngs::ThreadRng,
    candidates: &Vec<Position>,
) -> (pick: Option<Position>)
    ensures
        pick is None <==> candidates@.len() == 0,
        pick matches Some(p) ==> candidates@.contains(p),
{
    rand::seq::IteratorRandom::choose(candidates.iter().copied(), rng)
}

/// Draws a cell of a `width` by `height` board, each coordinate on its own.
pub fn rand_position(width: usize, height: usize) -> (position: Position)
    requires
        width > 0,
        height > 0,
    ensures
        position.0 < width,
        position.1 < height,
{
    let mut rng = rand::thread_rng();
    let x = gen_below(&mut rng, width);
    let y = gen_below(&mut rng, height);
    (x, y)
}

} // verus!
