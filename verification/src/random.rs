//! The random numbers the generator and the mutations draw, from `rand`.

use vstd::prelude::*;

use rand::rngs::ThreadRng;
use rand::Rng;

verus! {

/// The thread-local generator of `rand`.
#[verifier::external_type_specification]
#[verifier::external_body]
pub struct ExThreadRng(ThreadRng);

/// `rand::thread_rng`: a handle on the thread-local generator. Nothing is
/// claimed of its state.
#[verifier::external_body]
pub fn new_rng() -> ThreadRng {
    rand::thread_rng()
}

/// `Rng::gen_range` over `lo..=hi`: some integer of that range. `rand`
/// panics on an empty range, which the `requires` leaves out. Which integer
/// comes out is left to chance and not stated.
#[verifier::external_body]
pub fn rng_range(rng: &mut ThreadRng, lo: i128, hi: i128) -> (r: i128)
    requires
        lo <= hi,
    ensures
        lo <= r <= hi,
{
    rng.gen_range(lo..=hi)
}

/// `Rng::gen_ratio`: true with probability `num / den`. `rand` panics when
/// `num > den` or `den == 0`, which the `requires` leaves out; it is always
/// true when `num == den` and never true when `num == 0`.
#[verifier::external_body]
pub fn rng_ratio(rng: &mut ThreadRng, num: u32, den: u32) -> (r: bool)
    requires
        0 < den,
        num <= den,
    ensures
        num == 0 ==> !r,
        num == den ==> r,
{
    rng.gen_ratio(num, den)
}

/// An index below `n`, drawn with `rng_range`.
pub fn rng_index(rng: &mut ThreadRng, n: usize) -> (r: usize)
    requires
        0 < n,
    ensures
        r < n,
{
    let v = rng_range(rng, 0, (n - 1) as i128);
    v as usize
}

/// An integer of `lo..=hi`, drawn with `rng_range`.
pub fn rng_between(rng: &mut ThreadRng, lo: i64, hi: i64) -> (r: i64)
    requires
        lo <= hi,
    ensures
        lo <= r <= hi,
{
    let v = rng_range(rng, lo as i128, hi as i128);
    v as i64
}

} // verus!
