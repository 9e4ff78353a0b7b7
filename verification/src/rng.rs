//! The random stream that the generators draw from.
//!
//! The stream is `bracket_lib`'s `RandomNumberGenerator`. Nothing is proved of
//! the numbers it hands out but their range; the functions below are the only
//! places where the library calls it.

use vstd::prelude::*;
use bracket_lib::prelude::RandomNumberGenerator;

verus! {

#[verifier::external_type_specification]
#[verifier::external_body]
pub struct ExRandomNumberGenerator(bracket_lib::prelude::RandomNumberGenerator);

/// Calls `RandomNumberGenerator::new`, which seeds a stream from the system's
/// entropy. Nothing is claimed of the stream.
#[verifier::external_body]
pub(crate) fn fresh_rng() -> (rng: RandomNumberGenerator) {
    RandomNumberGenerator::new()
}

/// The stream that `RandomNumberGenerator::seeded` of `bracket_lib` starts for
/// `seed`, before anything has been drawn from it.
pub uninterp spec fn seeded_stream(seed: u64) -> RandomNumberGenerator;

/// Calls `RandomNumberGenerator::seeded`, which derives the state of a stream
/// from `seed` and from nothing else. The contract gives that stream a name,
/// and claims nothing of what will be drawn from it.
#[verifier::external_body]
pub(crate) fn seeded_rng(seed: u64) -> (rng: RandomNumberGenerator)
    ensures
        rng == seeded_stream(seed),
{
    RandomNumberGenerator::seeded(seed)
}

/// The stream of a run: the one that belongs to the seed where there is one,
/// else a stream seeded by the system, of which nothing is known.
pub fn stream(seed: Option<u64>) -> (rng: RandomNumberGenerator)
    ensures
        seed matches Some(s) ==> rng == seeded_stream(s),
{
    match seed {
        Some(seed) => seeded_rng(seed),
        None => fresh_rng(),
    }
}

/// Calls `RandomNumberGenerator::range` on `i32`. The outside function samples
/// the half-open range `min..max` and panics where that range is empty; the
/// contract claims that the number lies in the range.
#[verifier::external_body]
pub(crate) fn range(rng: &mut RandomNumberGenerator, min: i32, max: i32) -> (r: i32)
    requires
        min < max,
    ensures
        min <= r < max,
{
    rng.range(min, max)
}

/// Calls `RandomNumberGenerator::roll_dice`, which adds up `n` samples of
/// `1..die_type + 1`. The contract claims that the sum lies between `n` and
/// `n * die_type`; it leaves out the inputs on which a sample's range is empty
/// or the sum overflows.
#[verifier::external_body]
pub(crate) fn roll_dice(rng: &mut RandomNumberGenerator, n: i32, die_type: i32) -> (r: i32)
    requires
        0 <= n,
        1 <= die_type,
        n * die_type <= i32::MAX,
        die_type < i32::MAX,
    ensures
        n <= r <= n * die_type,
{
    rng.roll_dice(n, die_type)
}

/// Calls `RandomNumberGenerator::random_slice_index`, which returns `None` on
/// an empty slice and otherwise an index into it, drawn with one die of as
/// many sides as the slice is long. The contract claims exactly that; it
/// leaves out slices whose length does not fit the die.
#[verifier::external_body]
pub(crate) fn random_index<T>(rng: &mut RandomNumberGenerator, items: &Vec<T>) -> (r: Option<usize>)
    requires
        items.len() < i32::MAX,
    ensures
        r is None <==> items.len() == 0,
        r matches Some(i) ==> i < items.len(),
{
    rng.random_slice_index(items.as_slice())
}

} // verus!
