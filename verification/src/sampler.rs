//! Seeded sampling of insertion positions.
//!
//! A position is a raw draw from a seeded stream, reduced to the slots of a
//! sequence of known length. Nothing else enters: the same seed replays the
//! same positions.

use rand::{Rng, SeedableRng, StdRng};
use vstd::prelude::*;

verus! {

/// `rand::StdRng`, the generator behind every stream of draws.
#[verifier::external_type_specification]
#[verifier::external_body]
pub struct ExStdRng(rand::StdRng);

/// What a generator holds: the draws that it will yield from its present
/// state on. `upcoming(rng)[k]` is what `gen::<usize>()` returns after `k`
/// earlier calls of it.
pub uninterp spec fn upcoming(rng: StdRng) -> Map<nat, usize>;

/// The draws of a generator that was just seeded with the one word `seed`.
pub uninterp spec fn seeded_draws(seed: usize) -> Map<nat, usize>;

/// `<StdRng as SeedableRng<&[usize]>>::from_seed`, on the slice that holds the
/// one word `seed`. Claimed: what the new generator will yield depends on the
/// seed alone. `rand` fills the generator's whole state from the slice and
/// documents that generators made from one seed yield one sequence of values,
/// for the word size it was built for. Which values these are is not
/// claimed: the sequence has a name and nothing more.
#[verifier::external_body]
pub(crate) fn seeded_stream(seed: usize) -> (rng: StdRng)
    ensures
        upcoming(rng) == seeded_draws(seed),
{
    StdRng::from_seed(&[seed])
}

/// `Rng::gen::<usize>` on a `StdRng`. Claimed: the call hands out the first of
/// the upcoming draws and moves every later one a place forward. The
/// generator steps through its own state, reads nothing else, and does not
/// fail.
#[verifier::external_body]
pub(crate) fn draw_next(rng: &mut StdRng) -> (draw: usize)
    ensures
        draw == upcoming(*old(rng))[0],
        forall|k: nat| #[trigger] upcoming(*final(rng))[k] == upcoming(*old(rng))[k + 1],
{
    rng.gen::<usize>()
}

/// The first `n` of a stream of draws.
pub open spec fn first_draws(draws: Map<nat, usize>, n: nat) -> Seq<usize> {
    Seq::new(n, |k: int| draws[k as nat])
}

/// The position that a raw draw selects in a sequence of `size + offset`
/// elements: one of the `size + offset + 1` slots between and around them.
pub open spec fn position_of(draw: usize, size: int, offset: int) -> int {
    draw as int % (size + offset + 1)
}

/// Reduces a raw draw to a position in a sequence that had `size` elements and
/// has taken `offset` more since.
pub fn position(draw: usize, size: usize, offset: usize) -> (p: usize)
    requires
        size + offset < usize::MAX,
    ensures
        p == position_of(draw, size as int, offset as int),
        0 <= p <= size + offset,
{
    draw % (size + 1 + offset)
}

/// Samples one position from the stream: the next draw, reduced to the slots
/// of a sequence of `size + offset` elements. The stream moves on by one draw.
pub fn sample(rng: &mut StdRng, size: usize, offset: usize) -> (p: usize)
    requires
        size + offset < usize::MAX,
    ensures
        p == position_of(upcoming(*old(rng))[0], size as int, offset as int),
        0 <= p <= size + offset,
        forall|k: nat| #[trigger] upcoming(*final(rng))[k] == upcoming(*old(rng))[k + 1],
{
    let draw = draw_next(rng);
    position(draw, size, offset)
}

} // verus!
