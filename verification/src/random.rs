use vstd::prelude::*;
use crate::direction::Direction;

verus! {

/// `rand::rngs::StdRng`, the seedable generator that the library draws from.
/// Nothing is known of its state.
#[verifier::external_type_specification]
#[verifier::external_body]
pub struct ExStdRng(rand::rngs::StdRng);

/// Calls `rand::Rng::gen_range` on the half-open range `0..bound`.
///
/// Trusted: the generator panics on an empty range, which `requires` excludes,
/// and otherwise hands back a member of the range. Nothing is claimed about
/// which member, nor about the generator's state afterwards.
#[verifier::external_body]
pub(crate) fn draw_below(rng: &mut rand::rngs::StdRng, bound: u8) -> (draw: u8)
    requires
        bound > 0,
    ensures
        draw < bound,
{
    rand::Rng::gen_range(rng, 0..bound)
}

/// Calls `rand::seq::IteratorRandom::choose` on the directions in `candidates`.
///
/// Trusted: the call gives `None` if and only if there is no candidate, and
/// otherwise one of the candidates. Nothing is claimed about which one.
#[verifier::external_body]
pub(crate) fn choose_direction(candidates: &Vec<Direction>, rng: &mut rand::rngs::StdRng) -> (choice:
    Option<Direction>)
    ensures
        choice is None <==> candidates.len() == 0,
        choice matches Some(direction) ==> candidates@.contains(direction),
{
    rand::seq::IteratorRandom::choose(candidates.iter().copied(), rng)
}

} // verus!
