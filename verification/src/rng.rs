//! The random number generators of the `rand` crate, as the engine and the
//! strategies use them. What the crate documents of each call is stated here;
//! nothing is stated of the generators' internal state.
use vstd::prelude::*;

use rand::rngs::{SmallRng, StdRng};
use rand::seq::SliceRandom;
use rand::{Rng, SeedableRng};

verus! {

#[verifier::external_type_specification]
#[verifier::external_body]
pub struct ExStdRng(StdRng);

#[verifier::external_type_specification]
#[verifier::external_body]
pub struct ExSmallRng(SmallRng);

/// `Clone::clone` on a `StdRng`: a second generator in the same state, as
/// `Game` copies it. Nothing is stated of it.
pub assume_specification[ <StdRng as Clone>::clone ](rng: &StdRng) -> StdRng;

/// `StdRng::seed_from_u64`: a generator seeded from `seed`.
/// Nothing is stated of the generator it returns.
#[verifier::external_body]
pub(crate) fn std_rng_seeded(seed: u64) -> StdRng {
    StdRng::seed_from_u64(seed)
}

/// `Rng::random_range(0..n)` on a `StdRng`: a value below `n`
/// (the crate panics on an empty range, which `requires` rules out).
/// Which value comes out depends on the generator's state and is not stated.
#[verifier::external_body]
pub(crate) fn std_rng_below(rng: &mut StdRng, n: usize) -> (r: usize)
    requires
        n > 0,
    ensures
        r < n,
{
    rng.random_range(0..n)
}

/// `Rng::random_range(lo..=hi)` on a `StdRng` with `u8` bounds: a value from
/// `lo` to `hi` (the crate panics on an empty range, which `requires` rules out).
/// Which value comes out depends on the generator's state and is not stated.
#[verifier::external_body]
pub(crate) fn std_rng_between(rng: &mut StdRng, lo: u8, hi: u8) -> (r: u8)
    requires
        lo <= hi,
    ensures
        lo <= r <= hi,
{
    rng.random_range(lo..=hi)
}

/// `SliceRandom::shuffle` on the first `len` items: the crate documents it as an
/// in-place permutation, so those items are rearranged and the rest stay put.
/// Which permutation comes out is not stated.
#[verifier::external_body]
pub(crate) fn shuffle_prefix<T, const N: usize>(rng: &mut StdRng, items: &mut [T; N], len: usize)
    requires
        len <= N,
    ensures
        final(items)@.subrange(0, len as int).to_multiset() == old(items)@.subrange(0, len as int).to_multiset(),
        final(items)@.subrange(len as int, N as int) == old(items)@.subrange(len as int, N as int),
{
    items[..len].shuffle(rng)
}

/// `SmallRng::seed_from_u64`: a small generator seeded from `seed`.
/// Nothing is stated of the generator it returns.
#[verifier::external_body]
pub(crate) fn small_rng_seeded(seed: u64) -> SmallRng {
    SmallRng::seed_from_u64(seed)
}

/// `SeedableRng::try_from_os_rng` for `SmallRng`: a small generator seeded by
/// the operating system, or `None` when the operating system gives no entropy
/// (the crate's error, which carries nothing the library uses, is dropped).
/// Whether it succeeds depends on the machine and is not stated.
#[verifier::external_body]
pub(crate) fn small_rng_from_os() -> Option<SmallRng> {
    match SmallRng::try_from_os_rng() {
        Ok(rng) => Some(rng),
        Err(_) => None,
    }
}

/// `Rng::random_range(0..n)` on a `SmallRng`: a value below `n`
/// (the crate panics on an empty range, which `requires` rules out).
/// Which value comes out is not stated.
#[verifier::external_body]
pub(crate) fn small_rng_below(rng: &mut SmallRng, n: usize) -> (r: usize)
    requires
        n > 0,
    ensures
        r < n,
{
    rng.random_range(0..n)
}

} // verus!
