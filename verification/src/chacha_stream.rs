//! A seeded ChaCha8 index stream: the generator together with the seed it
//! was made from and the bounds of the indices drawn from it so far.

use vstd::prelude::*;
use rand::{Rng, SeedableRng};
use rand_chacha::ChaCha8Rng;

verus! {

#[verifier::external_type_specification]
#[verifier::external_body]
pub struct ExChaCha8Rng(ChaCha8Rng);

/// The index that `Rng::gen_range(0..bounds.last())` returns on a
/// `ChaCha8Rng` made by `SeedableRng::seed_from_u64(seed)` after
/// `gen_range(0..b)` has been called on it for each earlier `b` of `bounds`,
/// in order. A seeded ChaCha8 generator yields a fixed stream and
/// `gen_range` on `u64` consumes it deterministically, so the index depends
/// on these values alone.
pub uninterp spec fn chacha8_index(seed: u64, bounds: Seq<u64>) -> u64;

/// A ChaCha8 generator with the seed it was made from and the bounds of the
/// indices drawn from it so far. Its fields are private to this module, in
/// which only [`seeded_stream`] makes one and only [`draw_index`] draws from
/// it, so no verified code sets the ghost fields: they record the seed that
/// was handed to the generator and its whole history.
pub struct IndexStream {
    rng: ChaCha8Rng,
    seed: Ghost<u64>,
    bounds: Ghost<Seq<u64>>,
}

impl IndexStream {
    pub closed spec fn seed(&self) -> u64 {
        self.seed@
    }

    pub closed spec fn bounds(&self) -> Seq<u64> {
        self.bounds@
    }
}

/// Calls `SeedableRng::seed_from_u64` for `rand_chacha::ChaCha8Rng` with
/// `seed`: a generator at the start of the stream that `seed` fixes, from
/// which no index has been drawn, recorded with that seed.
#[verifier::external_body]
pub(crate) fn seeded_stream(seed: u64) -> (r: IndexStream)
    ensures
        r.seed() == seed,
        r.bounds() == Seq::<u64>::empty(),
{
    IndexStream { rng: ChaCha8Rng::seed_from_u64(seed), seed: Ghost(seed), bounds: Ghost(Seq::empty()) }
}

/// Calls `rand::Rng::gen_range` with the range `0..n` on the stream's
/// generator: the next index of the seeded stream, named by
/// [`chacha8_index`], which is below `n`. `gen_range` panics on an empty
/// range, so `n` must be positive.
#[verifier::external_body]
pub(crate) fn draw_index(s: &mut IndexStream, n: u64) -> (r: u64)
    requires
        n > 0,
    ensures
        final(s).seed() == old(s).seed(),
        final(s).bounds() == old(s).bounds().push(n),
        r == chacha8_index(old(s).seed(), old(s).bounds().push(n)),
        r < n,
{
    s.rng.gen_range(0..n)
}

} // verus!
