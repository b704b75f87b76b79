//! The xorshift mixer that picks enemy and card archetypes.
use vstd::prelude::*;

verus! {

/// One round of the xorshift mix (shifts 13, 7, 17) on a 64-bit word.
pub open spec fn xorshift_of(seed: u64) -> u64 {
    let a = seed ^ (seed << 13u64);
    let b = a ^ (a >> 7u64);
    b ^ (b << 17u64)
}

/// Archetype of a freshly spawned enemy: one of 3, 4, 5, 6.
pub open spec fn enemy_type_of(seed: u64) -> u8 {
    (3 + xorshift_of(seed) % 4) as u8
}

/// Kind of a freshly drawn upgrade card: one of 0, 1, 2.
pub open spec fn card_type_of(seed: u64) -> u8 {
    (xorshift_of(seed) % 3) as u8
}

/// Mixes `seed` into a pseudo-random word; the same seed gives the same word.
pub fn xorshift64(seed: u64) -> (r: u64)
    ensures
        r == xorshift_of(seed),
{
    let mut x: u64 = seed;
    x ^= x << 13u64;
    x ^= x >> 7u64;
    x ^= x << 17u64;
    x
}

/// The enemy archetype drawn from `seed`.
pub fn enemy_type(seed: u64) -> (r: u8)
    ensures
        r == enemy_type_of(seed),
        3 <= r <= 6,
{
    let offset: u64 = xorshift64(seed) % 4;
    (offset + 3) as u8
}

/// The card kind drawn from `seed`.
pub fn card_type(seed: u64) -> (r: u8)
    ensures
        r == card_type_of(seed),
        r < 3,
{
    (xorshift64(seed) % 3) as u8
}

} // verus!
