use vstd::prelude::*;
use rand::Rng;
use rand::SeedableRng;

verus! {

/// The value drawn from rand's ChaCha8 stream seeded with `seed` by a
/// `random_range(lo..=hi)` call, when the draws made before it used the
/// inclusive ranges in `prior`, in that order.
///
/// ChaCha8 is a fully specified stream cipher and rand's integer range
/// sampling consumes that stream deterministically, so this is a pure
/// function of the four arguments, the same in every process and on every
/// machine; its value is left uninterpreted.
pub uninterp spec fn chacha_draw(seed: u64, prior: Seq<(u32, u32)>, lo: u32, hi: u32) -> u32;

/// Relies on rand_chacha's `ChaCha8Rng::seed_from_u64` and rand's
/// `Rng::random_range`, drawing once per entry of `ranges` against a single
/// stream seeded once from `seed`.
///
/// Both calls are deterministic: the i-th draw is a function of the seed and
/// of the ranges drawn before it alone (named `chacha_draw`), and
/// `random_range(lo..=hi)` returns a value within the range and panics only
/// on an empty one, which the precondition rules out. The two calls are kept
/// in one wrapper because the stream state threads through every draw: split
/// wrappers could not state determinism without modelling that state.
#[verifier::external_body]
pub(crate) fn chacha_range_draws(seed: u64, ranges: &Vec<(u32, u32)>) -> (r: Vec<u32>)
    requires
        forall|i: int| 0 <= i < ranges@.len() ==> (#[trigger] ranges@[i]).0 <= ranges@[i].1,
    ensures
        r@.len() == ranges@.len(),
        forall|i: int|
            0 <= i < ranges@.len() ==> #[trigger] r@[i] == chacha_draw(
                seed,
                ranges@.take(i),
                ranges@[i].0,
                ranges@[i].1,
            ),
        forall|i: int|
            0 <= i < ranges@.len() ==> ranges@[i].0 <= #[trigger] r@[i] <= ranges@[i].1,
{
    let mut rng = rand_chacha::ChaCha8Rng::seed_from_u64(seed);
    let mut out = Vec::with_capacity(ranges.len());
    for range in ranges.iter() {
        out.push(rng.random_range(range.0..=range.1));
    }
    out
}

} // verus!
