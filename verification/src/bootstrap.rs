//! Bootstrap resampling for confidence intervals: which rows each resample
//! draws, from a ChaCha8 stream seeded by the request's seed.

use vstd::prelude::*;
use crate::chacha_stream::{chacha8_index, seeded_stream, draw_index};

verus! {

/// The `k`-th index (from 0) that the stream seeded with `seed` gives when
/// every draw is below `n`.
pub open spec fn seeded_draw(seed: u64, n: u64, k: nat) -> u64 {
    chacha8_index(seed, Seq::new(k + 1, |_i: int| n))
}

/// Whether `r` is a set of `n_boot` resamples of `n` indices below `n`.
pub open spec fn is_resampling(r: Seq<Vec<usize>>, n: int, n_boot: int) -> bool {
    &&& r.len() == n_boot
    &&& forall|b: int| 0 <= b < n_boot ==> (#[trigger] r[b]).len() == n
        && forall|i: int| 0 <= i < n ==> (#[trigger] r[b]@[i] as int) < n
}

/// The rows drawn by each of `n_boot` bootstrap resamples of `n` values:
/// each resample draws `n` indices with replacement, one after another from
/// a single ChaCha8 stream seeded with `seed`, so index `i` of resample `b`
/// is draw `b * n + i` of that stream. With fewer than two values, or no
/// resample asked for, there is no resampling and the result is empty.
pub fn bootstrap_indices(seed: u64, n: usize, n_boot: usize) -> (r: Vec<Vec<usize>>)
    ensures
        (n < 2 || n_boot == 0) ==> r.len() == 0,
        (n >= 2 && n_boot > 0) ==> is_resampling(r@, n as int, n_boot as int),
        (n >= 2 && n_boot > 0) ==> forall|b: int, i: int| 0 <= b < n_boot && 0 <= i < n ==>
            (#[trigger] r@[b]@[i]) as int == seeded_draw(seed, n as u64, (b * n + i) as nat),
{
    let mut out: Vec<Vec<usize>> = Vec::new();
    if n < 2 || n_boot == 0 {
        return out;
    }
    let bound = n as u64;
    let mut stream = seeded_stream(seed);
    let mut b: usize = 0;
    assert(stream.bounds() =~= Seq::new(0, |_i: int| bound));
    while b < n_boot
        invariant
            n >= 2,
            bound == n as u64,
            0 <= b <= n_boot,
            is_resampling(out@, n as int, b as int),
            stream.seed() == seed,
            stream.bounds() == Seq::new((b * n) as nat, |_i: int| bound),
            forall|c: int, i: int| 0 <= c < b && 0 <= i < n ==>
                (#[trigger] out@[c]@[i]) as int == seeded_draw(seed, bound, (c * n + i) as nat),
        decreases n_boot - b,
    {
        let mut sample: Vec<usize> = Vec::with_capacity(n);
        let mut i: usize = 0;
        while i < n
            invariant
                n >= 2,
                bound == n as u64,
                0 <= i <= n,
                b < n_boot,
                sample.len() == i,
                stream.seed() == seed,
                stream.bounds() == Seq::new((b * n + i) as nat, |_i: int| bound),
                forall|k: int| 0 <= k < i ==> (#[trigger] sample@[k] as int) < n,
                forall|k: int| 0 <= k < i ==> (#[trigger] sample@[k]) as int == seeded_draw(seed, bound, (b * n + k) as nat),
            decreases n - i,
        {
            let ghost before = stream.bounds();
            let j = draw_index(&mut stream, bound);
            proof {
                assert(before.push(bound) =~= Seq::new((b * n + i + 1) as nat, |_i: int| bound));
            }
            sample.push(j as usize);
            i = i + 1;
        }
        proof {
            assert(b * n + n == (b + 1) * n) by (nonlinear_arith);
        }
        out.push(sample);
        b = b + 1;
    }
    out
}

/// The values at the given indices, in index order.
pub fn gather<T: Copy>(values: &Vec<T>, indices: &Vec<usize>) -> (r: Vec<T>)
    requires
        forall|i: int| 0 <= i < indices.len() ==> (#[trigger] indices@[i] as int) < values.len(),
    ensures
        r.len() == indices.len(),
        forall|i: int| 0 <= i < indices.len() ==> #[trigger] r@[i] == values@[indices@[i] as int],
{
    let mut out: Vec<T> = Vec::with_capacity(indices.len());
    let mut i: usize = 0;
    while i < indices.len()
        invariant
            forall|k: int| 0 <= k < indices.len() ==> (#[trigger] indices@[k] as int) < values.len(),
            0 <= i <= indices.len(),
            out.len() == i,
            forall|k: int| 0 <= k < i ==> #[trigger] out@[k] == values@[indices@[k] as int],
        decreases indices.len() - i,
    {
        out.push(values[indices[i]]);
        i = i + 1;
    }
    out
}

} // verus!
