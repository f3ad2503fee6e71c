//! The pseudo-random source of the random fill.
//!
//! The numbers come from the xoshiro256++ generator of the `rand_xoshiro`
//! crate. Verus cannot look into that crate, so this module states what the
//! library relies on, and no more: that the generator's state after seeding
//! is fixed by the seed, and that each draw and the state it leaves behind
//! are fixed by the state before. Which numbers come out is not stated; they
//! are given names instead, so that contracts can speak of "the draw number
//! `i` after seeding with `seed`".

use rand_xoshiro::rand_core::{RngCore, SeedableRng};
use rand_xoshiro::Xoshiro256PlusPlus;
use vstd::prelude::*;

verus! {

/// Makes the generator type of `rand_xoshiro` known to Verus as an opaque
/// type.
#[verifier::external_type_specification]
#[verifier::external_body]
pub struct ExXoshiro256PlusPlus(Xoshiro256PlusPlus);

/// The four state words that a generator holds.
pub uninterp spec fn generator_state(generator: Xoshiro256PlusPlus) -> Seq<u64>;

/// The state words of a generator freshly seeded with `seed` by
/// `Xoshiro256PlusPlus::seed_from_u64`.
pub uninterp spec fn seeded_state(seed: u64) -> Seq<u64>;

/// What one call of `next_u32` does to a generator in state `state`: the
/// number it returns, and the state words it leaves behind.
pub uninterp spec fn next_output(state: Seq<u64>) -> (u32, Seq<u64>);

/// The state of a generator seeded with `seed` after `draws` draws.
pub open spec fn state_after(seed: u64, draws: nat) -> Seq<u64>
    decreases draws,
{
    if draws == 0 {
        seeded_state(seed)
    } else {
        next_output(state_after(seed, (draws - 1) as nat)).1
    }
}

/// Draw number `index`, counted from zero, of a generator seeded with
/// `seed`.
pub open spec fn draw(seed: u64, index: nat) -> u32 {
    next_output(state_after(seed, index)).0
}

/// Calls `Xoshiro256PlusPlus::seed_from_u64`, which expands the seed with
/// SplitMix64 into the four state words. Trusted: the state of the generator
/// that comes back depends on the seed alone. The call cannot fail.
#[verifier::external_body]
pub(crate) fn seeded_generator(seed: u64) -> (generator: Xoshiro256PlusPlus)
    ensures
        generator_state(generator) == seeded_state(seed),
{
    Xoshiro256PlusPlus::seed_from_u64(seed)
}

/// Calls `next_u32` of the generator, which returns the upper half of the
/// next 64-bit output and advances the state. Trusted: both the number
/// returned and the state left behind depend on the state before alone. The
/// call cannot fail.
#[verifier::external_body]
pub(crate) fn next_draw(generator: &mut Xoshiro256PlusPlus) -> (drawn: u32)
    ensures
        drawn == next_output(generator_state(*old(generator))).0,
        generator_state(*final(generator)) == next_output(generator_state(*old(generator))).1,
{
    generator.next_u32()
}

} // verus!
