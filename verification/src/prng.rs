//! The 64-bit Mersenne Twister that drives graph generation.

use vstd::prelude::*;
use rand_mt::Mt19937GenRand64;

verus! {

/// The generator type of `rand_mt`, carried through as an opaque value.
#[verifier::external_type_specification]
#[verifier::external_body]
pub struct ExMt19937GenRand64(Mt19937GenRand64);

/// The word that MT19937-64, seeded with `seed`, yields at draw number `index`
/// (counting from zero).
pub uninterp spec fn mt64_word(seed: u64, index: nat) -> u64;

/// The word that the generator `g` will yield `ahead` draws from now.
pub uninterp spec fn mt64_upcoming(g: Mt19937GenRand64, ahead: nat) -> u64;

/// `Mt19937GenRand64::new`: a generator seeded with `seed`. Every word it will
/// yield is the word of the seed's stream at the same position.
#[verifier::external_body]
pub(crate) fn mt64_seeded(seed: u64) -> (g: Mt19937GenRand64)
    ensures
        forall|k: nat| #[trigger] mt64_upcoming(g, k) == mt64_word(seed, k),
{
    Mt19937GenRand64::new(seed)
}

/// `Mt19937GenRand64::next_u64`: hands out the next word and advances the
/// generator by one draw, so that every later word moves one place forward.
#[verifier::external_body]
pub(crate) fn mt64_next(g: &mut Mt19937GenRand64) -> (w: u64)
    ensures
        w == mt64_upcoming(*old(g), 0),
        forall|k: nat| #[trigger] mt64_upcoming(*final(g), k) == mt64_upcoming(*old(g), k + 1),
{
    g.next_u64()
}

} // verus!
