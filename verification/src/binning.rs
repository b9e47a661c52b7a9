//! Bin counting: the bin a clamped raw index falls in, the count of each bin
//! (1-D) and of each grid cell (2-D), cumulative counts, and which cells a
//! 2-D binning emits. Where a value falls is computed by the caller in
//! floating point and handed over as a bin index.

use vstd::prelude::*;

verus! {

/// A raw bin index clamped to the bins `0..n`.
pub open spec fn spec_clamp_bin(raw: i64, n: int) -> int {
    if raw < 0 { 0 } else if raw > n - 1 { n - 1 } else { raw as int }
}

/// Clamp a raw bin index to the bins `0..n` (a value on the right edge
/// belongs to the last bin).
pub fn clamp_bin_index(raw: i64, n: usize) -> (r: usize)
    requires
        1 <= n <= i64::MAX,
    ensures
        r == spec_clamp_bin(raw, n as int),
        r < n,
{
    if raw < 0 {
        0
    } else if raw > (n - 1) as i64 {
        n - 1
    } else {
        raw as usize
    }
}

/// How many of `positions` are `b`.
pub open spec fn count_of(positions: Seq<usize>, b: int) -> nat
    decreases positions.len(),
{
    if positions.len() == 0 {
        0
    } else {
        count_of(positions.drop_last(), b) + if positions.last() == b { 1nat } else { 0nat }
    }
}

proof fn lemma_count_of_le_len(positions: Seq<usize>, b: int)
    ensures
        count_of(positions, b) <= positions.len(),
    decreases positions.len(),
{
    if positions.len() > 0 {
        lemma_count_of_le_len(positions.drop_last(), b);
    }
}

/// The number of values in each of `n_bins` bins, given each value's bin.
pub fn bin_counts(positions: &Vec<usize>, n_bins: usize) -> (r: Vec<u64>)
    requires
        forall|i: int| 0 <= i < positions.len() ==> (#[trigger] positions@[i] as int) < n_bins,
    ensures
        r.len() == n_bins,
        forall|b: int| 0 <= b < n_bins ==> #[trigger] r@[b] == count_of(positions@, b),
{
    let mut counts: Vec<u64> = Vec::with_capacity(n_bins);
    let mut b: usize = 0;
    while b < n_bins
        invariant
            0 <= b <= n_bins,
            counts.len() == b,
            forall|k: int| 0 <= k < b ==> #[trigger] counts@[k] == 0,
        decreases n_bins - b,
    {
        counts.push(0);
        b = b + 1;
    }
    let mut i: usize = 0;
    while i < positions.len()
        invariant
            forall|k: int| 0 <= k < positions.len() ==> (#[trigger] positions@[k] as int) < n_bins,
            0 <= i <= positions.len(),
            counts.len() == n_bins,
            forall|k: int| 0 <= k < n_bins ==> #[trigger] counts@[k] == count_of(positions@.take(i as int), k),
        decreases positions.len() - i,
    {
        let p = positions[i];
        proof {
            assert(positions@.take(i + 1).drop_last() =~= positions@.take(i as int));
            lemma_count_of_le_len(positions@.take(i as int), p as int);
        }
        let c = counts[p];
        counts.set(p, c + 1);
        i = i + 1;
    }
    assert(positions@.take(i as int) =~= positions@);
    counts
}

/// The sum of the first `i` counts.
pub open spec fn prefix_sum(counts: Seq<u64>, i: int) -> int
    decreases i,
{
    if i <= 0 { 0 } else { prefix_sum(counts, i - 1) + counts[i - 1] }
}

/// The running totals of the counts, each capped at `u64::MAX` (as a
/// saturating sum gives them).
pub open spec fn spec_cumulative(counts: Seq<u64>, i: int) -> u64 {
    if prefix_sum(counts, i + 1) > u64::MAX { u64::MAX } else { prefix_sum(counts, i + 1) as u64 }
}

proof fn lemma_prefix_sum_monotone(counts: Seq<u64>, i: int, j: int)
    requires
        0 <= i <= j <= counts.len(),
    ensures
        prefix_sum(counts, i) <= prefix_sum(counts, j),
    decreases j - i,
{
    if i < j {
        lemma_prefix_sum_monotone(counts, i, j - 1);
    }
}

/// The cumulative count of every bin: the running total of the counts so
/// far, saturating at `u64::MAX`.
pub fn cumulative_counts(counts: &Vec<u64>) -> (r: Vec<u64>)
    ensures
        r.len() == counts.len(),
        forall|i: int| 0 <= i < counts.len() ==> #[trigger] r@[i] == spec_cumulative(counts@, i),
{
    let mut out: Vec<u64> = Vec::with_capacity(counts.len());
    let mut acc: u64 = 0;
    let mut i: usize = 0;
    while i < counts.len()
        invariant
            0 <= i <= counts.len(),
            out.len() == i,
            acc == if prefix_sum(counts@, i as int) > u64::MAX { u64::MAX } else { prefix_sum(counts@, i as int) as u64 },
            forall|k: int| 0 <= k < i ==> #[trigger] out@[k] == spec_cumulative(counts@, k),
        decreases counts.len() - i,
    {
        proof {
            lemma_prefix_sum_monotone(counts@, 0, i as int);
        }
        acc = acc.saturating_add(counts[i]);
        out.push(acc);
        i = i + 1;
    }
    out
}

/// The number of positions that fall in the first `n` bins.
pub open spec fn counted_in(positions: Seq<usize>, n: int) -> int
    decreases n,
{
    if n <= 0 { 0 } else { counted_in(positions, n - 1) + count_of(positions, n - 1) }
}

proof fn lemma_counted_in_push(q: Seq<usize>, x: usize, n: int)
    requires
        0 <= n,
    ensures
        counted_in(q.push(x), n) == counted_in(q, n) + if (x as int) < n { 1int } else { 0int },
    decreases n,
{
    assert(q.push(x).drop_last() =~= q);
    if n > 0 {
        lemma_counted_in_push(q, x, n - 1);
    }
}

proof fn lemma_counted_in_all(positions: Seq<usize>, n: int)
    requires
        0 <= n,
        forall|i: int| 0 <= i < positions.len() ==> (#[trigger] positions[i] as int) < n,
    ensures
        counted_in(positions, n) == positions.len(),
    decreases positions.len(),
{
    if positions.len() == 0 {
        assert(counted_in(positions, n) == 0) by {
            lemma_counted_in_empty(positions, n);
        }
    } else {
        let q = positions.drop_last();
        assert(q.push(positions.last()) =~= positions);
        lemma_counted_in_all(q, n);
        lemma_counted_in_push(q, positions.last(), n);
    }
}

proof fn lemma_counted_in_empty(positions: Seq<usize>, n: int)
    requires
        positions.len() == 0,
    ensures
        counted_in(positions, n) == 0,
    decreases n,
{
    if n > 0 {
        lemma_counted_in_empty(positions, n - 1);
    }
}

proof fn lemma_prefix_sum_is_counted(counts: Seq<u64>, positions: Seq<usize>, k: int)
    requires
        0 <= k <= counts.len(),
        forall|b: int| 0 <= b < counts.len() ==> #[trigger] counts[b] == count_of(positions, b),
    ensures
        prefix_sum(counts, k) == counted_in(positions, k),
    decreases k,
{
    if k > 0 {
        lemma_prefix_sum_is_counted(counts, positions, k - 1);
    }
}

/// Every value lands in exactly one bin: the bin counts add up to the
/// number of values, and so does the last cumulative count when it fits.
pub proof fn lemma_counts_total(positions: Seq<usize>, counts: Seq<u64>)
    requires
        forall|i: int| 0 <= i < positions.len() ==> (#[trigger] positions[i] as int) < counts.len(),
        forall|b: int| 0 <= b < counts.len() ==> #[trigger] counts[b] == count_of(positions, b),
    ensures
        prefix_sum(counts, counts.len() as int) == positions.len(),
        counts.len() > 0 && positions.len() <= u64::MAX ==>
            spec_cumulative(counts, counts.len() - 1) == positions.len(),
{
    lemma_prefix_sum_is_counted(counts, positions, counts.len() as int);
    lemma_counted_in_all(positions, counts.len() as int);
}

/// Cumulative counts never decrease from one bin to the next.
pub proof fn lemma_cumulative_monotone(counts: Seq<u64>, i: int, j: int)
    requires
        0 <= i <= j < counts.len(),
    ensures
        spec_cumulative(counts, i) <= spec_cumulative(counts, j),
{
    lemma_prefix_sum_monotone(counts, i + 1, j + 1);
    lemma_prefix_sum_monotone(counts, 0, i + 1);
}

/// The sum of row `r` of a grid `nx` wide over the columns `0..=c`.
pub open spec fn row_sum(a: Seq<u64>, nx: int, r: int, c: int) -> int
    decreases c + 1,
{
    if c < 0 { 0 } else { row_sum(a, nx, r, c - 1) + a[r * nx + c] }
}

/// The sum of a grid `nx` wide over the rows `0..=r` and columns `0..=c`.
pub open spec fn rect_sum(a: Seq<u64>, nx: int, r: int, c: int) -> int
    decreases r + 1,
{
    if r < 0 { 0 } else { rect_sum(a, nx, r - 1, c) + row_sum(a, nx, r, c) }
}

proof fn lemma_row_sum_nonneg(a: Seq<u64>, nx: int, r: int, c: int)
    ensures
        0 <= row_sum(a, nx, r, c),
    decreases c + 1,
{
    if c >= 0 {
        lemma_row_sum_nonneg(a, nx, r, c - 1);
    }
}

proof fn lemma_rect_sum_nonneg(a: Seq<u64>, nx: int, r: int, c: int)
    ensures
        0 <= rect_sum(a, nx, r, c),
    decreases r + 1,
{
    if r >= 0 {
        lemma_rect_sum_nonneg(a, nx, r - 1, c);
        lemma_row_sum_nonneg(a, nx, r, c);
    }
}

proof fn lemma_row_sum_monotone(a: Seq<u64>, nx: int, r: int, c1: int, c2: int)
    requires
        c1 <= c2,
    ensures
        row_sum(a, nx, r, c1) <= row_sum(a, nx, r, c2),
    decreases c2 - c1,
{
    if c1 < c2 {
        lemma_row_sum_monotone(a, nx, r, c1, c2 - 1);
    }
}

proof fn lemma_rect_sum_monotone_cols(a: Seq<u64>, nx: int, r: int, c1: int, c2: int)
    requires
        c1 <= c2,
    ensures
        rect_sum(a, nx, r, c1) <= rect_sum(a, nx, r, c2),
    decreases r + 1,
{
    if r >= 0 {
        lemma_rect_sum_monotone_cols(a, nx, r - 1, c1, c2);
        lemma_row_sum_monotone(a, nx, r, c1, c2);
    }
}

proof fn lemma_rect_sum_monotone_rows(a: Seq<u64>, nx: int, r1: int, r2: int, c: int)
    requires
        r1 <= r2,
    ensures
        rect_sum(a, nx, r1, c) <= rect_sum(a, nx, r2, c),
    decreases r2 - r1,
{
    if r1 < r2 {
        lemma_rect_sum_monotone_rows(a, nx, r1, r2 - 1, c);
        if r2 >= 0 {
            lemma_row_sum_nonneg(a, nx, r2, c);
        }
    }
}

proof fn lemma_rect_sum_monotone(a: Seq<u64>, nx: int, r1: int, c1: int, r2: int, c2: int)
    requires
        r1 <= r2,
        c1 <= c2,
    ensures
        0 <= rect_sum(a, nx, r1, c1) <= rect_sum(a, nx, r2, c2),
{
    lemma_rect_sum_nonneg(a, nx, r1, c1);
    lemma_rect_sum_monotone_cols(a, nx, r1, c1, c2);
    lemma_rect_sum_monotone_rows(a, nx, r1, r2, c2);
}

/// A cumulative 2-D count never decreases along either axis.
pub proof fn lemma_rect_sum_monotone_law(a: Seq<u64>, nx: int, r1: int, c1: int, r2: int, c2: int)
    requires
        0 <= r1 <= r2,
        0 <= c1 <= c2,
    ensures
        rect_sum(a, nx, r1, c1) <= rect_sum(a, nx, r2, c2),
{
    lemma_rect_sum_monotone(a, nx, r1, c1, r2, c2);
}

/// Turn a grid of counts (row-major, `ny` rows of `nx` cells) into its
/// inclusive 2-D prefix sums: cell `(r, c)` holds the count of all cells
/// `(r', c')` with `r' <= r` and `c' <= c`. The grid's total must fit.
pub fn cumulative_2d(counts: &mut Vec<u64>, nx: usize, ny: usize)
    requires
        old(counts).len() == nx * ny,
        nx * ny <= usize::MAX,
        ny > 0 && nx > 0 ==> rect_sum(old(counts)@, nx as int, ny - 1, nx - 1) <= u64::MAX,
    ensures
        final(counts).len() == nx * ny,
        forall|r: int, c: int| 0 <= r < ny && 0 <= c < nx ==>
            #[trigger] final(counts)@[r * nx + c] == rect_sum(old(counts)@, nx as int, r, c),
{
    let ghost a = counts@;
    let mut r: usize = 0;
    while r < ny
        invariant
            a.len() == nx * ny,
            counts.len() == nx * ny,
            nx * ny <= usize::MAX,
            ny > 0 && nx > 0 ==> rect_sum(a, nx as int, ny - 1, nx - 1) <= u64::MAX,
            0 <= r <= ny,
            forall|r2: int, c2: int| 0 <= r2 < r && 0 <= c2 < nx ==> #[trigger] counts@[r2 * nx + c2] == rect_sum(a, nx as int, r2, c2),
            forall|r2: int, c2: int| r <= r2 < ny && 0 <= c2 < nx ==> #[trigger] counts@[r2 * nx + c2] == a[r2 * nx + c2],
        decreases ny - r,
    {
        let mut c: usize = 0;
        // Running sum of row `r` over the columns before `c`.
        while c < nx
            invariant
                a.len() == nx * ny,
                counts.len() == nx * ny,
                nx * ny <= usize::MAX,
                ny > 0 && nx > 0 ==> rect_sum(a, nx as int, ny - 1, nx - 1) <= u64::MAX,
                0 <= r < ny,
                0 <= c <= nx,
                forall|r2: int, c2: int| 0 <= r2 < r && 0 <= c2 < nx ==> #[trigger] counts@[r2 * nx + c2] == rect_sum(a, nx as int, r2, c2),
                forall|c2: int| 0 <= c2 < c ==> #[trigger] counts@[r * nx + c2] == rect_sum(a, nx as int, r as int, c2),
                forall|r2: int, c2: int| (r < r2 < ny && 0 <= c2 < nx) || (r2 == r && c <= c2 < nx)
                    ==> #[trigger] counts@[r2 * nx + c2] == a[r2 * nx + c2],
            decreases nx - c,
        {
            proof {
                assert(0 <= r * nx + c < nx * ny) by (nonlinear_arith)
                    requires 0 <= r < ny, 0 <= c < nx;
                assert(r * nx + c == r * nx + c);
                lemma_rect_sum_monotone(a, nx as int, r as int, c as int, ny - 1, nx - 1);
                lemma_rect_sum_monotone(a, nx as int, r - 1, c as int, r as int, c as int);
                lemma_rect_sum_monotone(a, nx as int, r - 1, c - 1, r - 1, c as int);
                lemma_rect_sum_monotone(a, nx as int, r as int, c - 1, r as int, c as int);
                lemma_rect_sum_step(a, nx as int, r as int, c as int);
            }
            let idx = r * nx + c;
            let here = counts[idx];
            let above: u64 = if r > 0 {
                proof {
                    assert(0 <= (r - 1) * nx + c < r * nx) by (nonlinear_arith)
                        requires 0 < r, 0 <= c < nx;
                }
                counts[(r - 1) * nx + c]
            } else { 0 };
            let diag: u64 = if r > 0 && c > 0 {
                proof {
                    assert(0 <= (r - 1) * nx + (c - 1) < r * nx) by (nonlinear_arith)
                        requires 0 < r, 0 < c < nx;
                }
                counts[(r - 1) * nx + (c - 1)]
            } else { 0 };
            let left: u64 = if c > 0 { counts[r * nx + (c - 1)] } else { 0 };
            let v = here + (above - diag) + left;
            let ghost before = counts@;
            counts.set(idx, v);
            proof {
                assert forall|r2: int, c2: int| 0 <= r2 < r && 0 <= c2 < nx implies #[trigger] counts@[r2 * nx + c2] == rect_sum(a, nx as int, r2, c2) by {
                    assert(r2 * nx + c2 < r * nx) by (nonlinear_arith) requires 0 <= r2 < r, 0 <= c2 < nx;
                    assert(counts@[r2 * nx + c2] == before[r2 * nx + c2]);
                }
                assert forall|r2: int, c2: int| (r < r2 < ny && 0 <= c2 < nx) || (r2 == r && c + 1 <= c2 < nx)
                    implies #[trigger] counts@[r2 * nx + c2] == a[r2 * nx + c2] by {
                    assert(r2 * nx + c2 < nx * ny) by (nonlinear_arith) requires 0 <= r2 < ny, 0 <= c2 < nx;
                    if r2 > r {
                        assert(r2 * nx + c2 >= (r + 1) * nx) by (nonlinear_arith) requires r < r2, 0 <= c2, 0 <= r, 0 <= nx;
                        assert((r + 1) * nx == r * nx + nx) by (nonlinear_arith);
                    }
                    assert(r2 * nx + c2 != idx);
                    assert(counts@[r2 * nx + c2] == before[r2 * nx + c2]);
                }
                assert forall|c2: int| 0 <= c2 < c + 1 implies #[trigger] counts@[r * nx + c2] == rect_sum(a, nx as int, r as int, c2) by {
                    if c2 < c {
                        assert(counts@[r * nx + c2] == before[r * nx + c2]);
                    }
                }
            }
            c = c + 1;
        }
        proof {
            assert forall|r2: int, c2: int| 0 <= r2 < r + 1 && 0 <= c2 < nx implies #[trigger] counts@[r2 * nx + c2] == rect_sum(a, nx as int, r2, c2) by {
                if r2 == r {
                    assert(counts@[r * nx + c2] == rect_sum(a, nx as int, r as int, c2));
                }
            }
        }
        r = r + 1;
    }
}

/// The inclusion–exclusion step of the 2-D prefix sum.
proof fn lemma_rect_sum_step(a: Seq<u64>, nx: int, r: int, c: int)
    requires
        r >= 0,
        c >= 0,
    ensures
        rect_sum(a, nx, r, c) == a[r * nx + c] + (rect_sum(a, nx, r - 1, c) - rect_sum(a, nx, r - 1, c - 1)) + rect_sum(a, nx, r, c - 1),
{
    assert(rect_sum(a, nx, r, c) == rect_sum(a, nx, r - 1, c) + row_sum(a, nx, r, c));
    assert(rect_sum(a, nx, r, c - 1) == rect_sum(a, nx, r - 1, c - 1) + row_sum(a, nx, r, c - 1));
    assert(row_sum(a, nx, r, c) == row_sum(a, nx, r, c - 1) + a[r * nx + c]);
}

/// The grid position (row-major, `nx` wide) of each `(x bin, y bin)` cell.
pub fn grid_positions(cells: &Vec<(usize, usize)>, nx: usize, ny: usize) -> (r: Vec<usize>)
    requires
        nx * ny <= usize::MAX,
        forall|i: int| 0 <= i < cells.len() ==> (#[trigger] cells@[i]).0 < nx && cells@[i].1 < ny,
    ensures
        r.len() == cells.len(),
        forall|i: int| 0 <= i < cells.len() ==> #[trigger] r@[i] == cells@[i].1 * nx + cells@[i].0
            && (r@[i] as int) < nx * ny,
{
    let mut out: Vec<usize> = Vec::with_capacity(cells.len());
    let mut i: usize = 0;
    while i < cells.len()
        invariant
            nx * ny <= usize::MAX,
            forall|k: int| 0 <= k < cells.len() ==> (#[trigger] cells@[k]).0 < nx && cells@[k].1 < ny,
            0 <= i <= cells.len(),
            out.len() == i,
            forall|k: int| 0 <= k < i ==> #[trigger] out@[k] == cells@[k].1 * nx + cells@[k].0 && (out@[k] as int) < nx * ny,
        decreases cells.len() - i,
    {
        let (ix, iy) = cells[i];
        proof {
            assert(iy * nx + ix < nx * ny) by (nonlinear_arith) requires ix < nx, iy < ny;
        }
        out.push(iy * nx + ix);
        i = i + 1;
    }
    out
}

/// The cells a 2-D binning emits, as `(row, column)` in row-major order:
/// every cell when cumulative, otherwise the cells with a non-zero count.
pub fn emitted_cells(counts: &Vec<u64>, nx: usize, ny: usize, cumulative: bool) -> (r: Vec<(usize, usize)>)
    requires
        counts.len() == nx * ny,
    ensures
        forall|k: int| 0 <= k < r.len() ==> (#[trigger] r@[k]).0 < ny && r@[k].1 < nx
            && (cumulative || counts@[r@[k].0 * nx + r@[k].1] != 0),
        forall|k: int, l: int| 0 <= k < l < r.len() ==>
            (#[trigger] r@[k]).0 * nx + r@[k].1 < (#[trigger] r@[l]).0 * nx + r@[l].1,
        forall|row: usize, col: usize| row < ny && col < nx && (cumulative || counts@[row * nx + col] != 0)
            ==> #[trigger] r@.contains((row, col)),
{
    let mut out: Vec<(usize, usize)> = Vec::new();
    let mut row: usize = 0;
    while row < ny
        invariant
            counts.len() == nx * ny,
            0 <= row <= ny,
            forall|k: int| 0 <= k < out.len() ==> (#[trigger] out@[k]).0 < row && out@[k].1 < nx
                && (cumulative || counts@[out@[k].0 * nx + out@[k].1] != 0),
            forall|k: int, l: int| 0 <= k < l < out.len() ==>
                (#[trigger] out@[k]).0 * nx + out@[k].1 < (#[trigger] out@[l]).0 * nx + out@[l].1,
            forall|r2: usize, c2: usize| r2 < row && c2 < nx && (cumulative || counts@[r2 * nx + c2] != 0)
                ==> #[trigger] out@.contains((r2, c2)),
        decreases ny - row,
    {
        proof {
            assert forall|k: int| 0 <= k < out.len() implies (#[trigger] out@[k]).0 * nx + out@[k].1 < row * nx + 0 by {
                let a = out@[k].0;
                let b = out@[k].1;
                assert(a * nx + b < row * nx) by (nonlinear_arith) requires a < row, b < nx;
            }
        }
        let mut col: usize = 0;
        while col < nx
            invariant
                counts.len() == nx * ny,
                0 <= row < ny,
                0 <= col <= nx,
                forall|k: int| 0 <= k < out.len() ==> (#[trigger] out@[k]).0 * nx + out@[k].1 < row * nx + col
                    && out@[k].0 <= row && out@[k].1 < nx
                    && (cumulative || counts@[out@[k].0 * nx + out@[k].1] != 0),
                forall|k: int, l: int| 0 <= k < l < out.len() ==>
                    (#[trigger] out@[k]).0 * nx + out@[k].1 < (#[trigger] out@[l]).0 * nx + out@[l].1,
                forall|r2: usize, c2: usize| ((r2 < row && c2 < nx) || (r2 == row && c2 < col))
                    && (cumulative || counts@[r2 * nx + c2] != 0)
                    ==> #[trigger] out@.contains((r2, c2)),
            decreases nx - col,
        {
            proof {
                assert(row * nx + col < nx * ny) by (nonlinear_arith) requires row < ny, col < nx;
            }
            if cumulative || counts[row * nx + col] != 0 {
                let ghost before = out@;
                out.push((row, col));
                proof {
                    assert forall|r2: usize, c2: usize| ((r2 < row && c2 < nx) || (r2 == row && c2 < col + 1))
                        && (cumulative || counts@[r2 * nx + c2] != 0) implies #[trigger] out@.contains((r2, c2)) by {
                        if r2 == row && c2 == col {
                            assert(out@[before.len() as int] == (r2, c2));
                        } else {
                            assert(before.contains((r2, c2)));
                            let w = choose|w: int| 0 <= w < before.len() && before[w] == (r2, c2);
                            assert(out@[w] == (r2, c2));
                        }
                    }
                }
            }
            col = col + 1;
        }
        proof {
            assert forall|k: int| 0 <= k < out.len() implies (#[trigger] out@[k]).0 < row + 1 by {
                if out@[k].0 > row {
                    assert(out@[k].0 * nx >= (row + 1) * nx) by (nonlinear_arith) requires out@[k].0 >= row + 1;
                    assert((row + 1) * nx == row * nx + nx) by (nonlinear_arith);
                }
            }
        }
        row = row + 1;
    }
    out
}

/// `ceil(log2(n))` for `n >= 1` (0 for `n <= 1`).
pub open spec fn ceil_log2(n: nat) -> nat
    decreases n,
{
    if n <= 1 { 0 } else { 1 + ceil_log2(((n + 1) / 2) as nat) }
}

/// The bin count of Sturges' rule for `n` values: `ceil(log2 n) + 1`, and 1
/// for no value.
pub fn sturges_floor(n: usize) -> (r: usize)
    ensures
        r == ceil_log2(n as nat) + 1,
{
    let mut m: usize = n;
    let mut k: usize = 0;
    while m > 1
        invariant
            k + ceil_log2(m as nat) == ceil_log2(n as nat),
            n == 0 ==> k == 0 && m == 0,
            n > 0 ==> m >= 1 && k + m <= n,
        decreases m,
    {
        let next: usize = m / 2 + m % 2;
        assert(next as nat == ((m + 1) / 2) as nat);
        m = next;
        k = k + 1;
    }
    k + 1
}

} // verus!
