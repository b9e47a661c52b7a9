//! Window functions over sorted rows: one partition per group key,
//! row numbers and ranks, the source rows of lag/lead/first/last, and the
//! row frames of rolling aggregates. What is aggregated over those rows is
//! computed by the caller.

use vstd::prelude::*;
use crate::group_key::{KeyValue, KeyView, kv};
use crate::text::str_is;
use crate::column::{Table, ColumnData, index_of, spec_index_of, spec_col_len};
use crate::stat_groups::NAN_BITS;
use crate::group_key::clone_key_vec;
use crate::partition::{GroupError, two_phase_error, resolve_group_cols_two_phase, table_row_keys, spec_group_row_key, spec_resolved, okv, row_keys_view,
    partition_first_appearance, is_first_appearance_partition, exact_rows, order_view, rows_view, spec_col_ok,
    is_partition, distinct_keys, lemma_partition_row_in_one_group};

verus! {

/// The key of each position of `sorted` (`keys` is indexed by row).
pub open spec fn sorted_keys(keys: Seq<Seq<KeyView>>, sorted: Seq<usize>) -> Seq<Option<Seq<KeyView>>> {
    Seq::new(sorted.len(), |j: int| Some(keys[sorted[j] as int]))
}

/// The rows at the given positions of `sorted`, group by group.
pub open spec fn rows_at(sorted: Seq<usize>, pos: Seq<Seq<usize>>) -> Seq<Seq<usize>> {
    pos.map_values(|ps: Seq<usize>| ps.map_values(|j: usize| sorted[j as int]))
}

/// `parts` groups the rows of `sorted` by key: one part per distinct key, in
/// order of first appearance in `sorted`, each holding every row of `sorted`
/// with that key in `sorted` order, and no other row. Through the positions
/// of `sorted`, every entry of `sorted` lies in exactly one part.
pub open spec fn is_key_groups(keys: Seq<Seq<KeyView>>, sorted: Seq<usize>, parts: Seq<Seq<usize>>) -> bool {
    exists|order: Seq<Seq<KeyView>>, pos: Seq<Seq<usize>>|
        #[trigger] is_first_appearance_partition(sorted_keys(keys, sorted), order, pos)
        && parts == rows_at(sorted, pos)
}

/// Grouping rows by key places each row once: when `sorted` lists rows below
/// `n` without repeating one, the parts of [`is_key_groups`] are disjoint,
/// hold only rows of `sorted`, and hold every one of them; and two rows
/// share a part exactly when they share a key.
pub proof fn lemma_key_groups_place_each_row_once(keys: Seq<Seq<KeyView>>, sorted: Seq<usize>, parts: Seq<Seq<usize>>, n: int)
    requires
        is_key_groups(keys, sorted, parts),
        sorted.no_duplicates(),
        sorted.len() <= usize::MAX,
        forall|j: int| 0 <= j < sorted.len() ==> (#[trigger] sorted[j] as int) < n,
    ensures
        parts_disjoint(parts, n),
        forall|p: int, k: int| 0 <= p < parts.len() && 0 <= k < parts[p].len() ==> sorted.contains(#[trigger] parts[p][k]),
        forall|j: int| 0 <= j < sorted.len() ==> !in_no_part(parts, #[trigger] sorted[j] as int),
        forall|p: int, j: int, q: int, k: int|
            0 <= p < parts.len() && 0 <= j < parts[p].len() && 0 <= q < parts.len() && 0 <= k < parts[q].len()
            ==> (keys[#[trigger] parts[p][j] as int] == keys[#[trigger] parts[q][k] as int] <==> p == q),
{
    let (order, pos) = choose|order: Seq<Seq<KeyView>>, pos: Seq<Seq<usize>>|
        #[trigger] is_first_appearance_partition(sorted_keys(keys, sorted), order, pos) && parts == rows_at(sorted, pos);
    let sk = sorted_keys(keys, sorted);
    let len = sk.len() as int;
    assert(is_partition(sk, len, order, pos));
    assert forall|p: int, k: int| 0 <= p < parts.len() && 0 <= k < parts[p].len() implies
        0 <= pos[p][k] < sorted.len() && parts[p][k] == sorted[pos[p][k] as int]
        && keys[parts[p][k] as int] == order[p] by {
        assert(exact_rows(sk, len, order[p], pos[p]));
        assert(sk[pos[p][k] as int] == Some(order[p]));
    }
    assert forall|p: int, k: int| 0 <= p < parts.len() && 0 <= k < parts[p].len() implies
        sorted.contains(#[trigger] parts[p][k]) by {
        assert(sorted[pos[p][k] as int] == parts[p][k]);
    }
    assert forall|p: int, j: int, q: int, k: int|
        0 <= p < parts.len() && 0 <= j < parts[p].len() && 0 <= q < parts.len() && 0 <= k < parts[q].len()
        implies (keys[#[trigger] parts[p][j] as int] == keys[#[trigger] parts[q][k] as int] <==> p == q) by {
        assert(distinct_keys(order));
        if p != q {
            assert(order[p] != order[q]);
        }
    }
    assert forall|j: int| 0 <= j < sorted.len() implies !in_no_part(parts, #[trigger] sorted[j] as int) by {
        lemma_partition_row_in_one_group(sk, len, order, pos, j);
        let g = choose|g: int| 0 <= g < order.len() && order[g] == sk[j]->0 && pos[g].contains(j as usize);
        let k = choose|k: int| 0 <= k < pos[g].len() && pos[g][k] == j as usize;
        assert(parts.len() == pos.len());
        assert(parts[g] == pos[g].map_values(|i: usize| sorted[i as int]));
        assert(parts[g][k] == sorted[j]);
    }
    assert forall|p: int, j: int| 0 <= p < parts.len() && 0 <= j < parts[p].len() implies (#[trigger] parts[p][j] as int) < n by {
        assert(parts[p][j] == sorted[pos[p][j] as int]);
    }
    assert forall|p: int, j: int, q: int, k: int|
        0 <= p < parts.len() && 0 <= j < parts[p].len() && 0 <= q < parts.len() && 0 <= k < parts[q].len()
        && (p != q || j != k) implies #[trigger] parts[p][j] != #[trigger] parts[q][k] by {
        if parts[p][j] == parts[q][k] {
            let a = pos[p][j] as int;
            let b = pos[q][k] as int;
            assert(sorted[a] == sorted[b]);
            assert(a == b);
            lemma_partition_row_in_one_group(sk, len, order, pos, a);
            assert(pos[p].contains(a as usize));
            assert(pos[q].contains(a as usize));
            assert(p == q);
            assert(exact_rows(sk, len, order[p], pos[p]));
            if j < k {
                assert(pos[p][j] < pos[p][k]);
            } else if k < j {
                assert(pos[p][k] < pos[p][j]);
            }
        }
    }
}

/// Views of a list of row-index lists.
pub open spec fn parts_view(r: Seq<Vec<usize>>) -> Seq<Seq<usize>> {
    r.map_values(|v: Vec<usize>| v@)
}

/// Views of per-row key tuples.
pub open spec fn keys_view(r: Seq<Vec<KeyValue>>) -> Seq<Seq<KeyView>> {
    r.map_values(|v: Vec<KeyValue>| kv(v@))
}

/// Group the rows of the sorted order by key: one group per distinct key, in
/// order of first appearance, each listing its rows in sorted order.
pub fn group_in_order(keys: &Vec<Vec<KeyValue>>, sorted: &Vec<usize>) -> (r: Vec<Vec<usize>>)
    requires
        forall|i: int| 0 <= i < sorted.len() ==> (#[trigger] sorted@[i] as int) < keys.len(),
    ensures
        is_key_groups(keys_view(keys@), sorted@, parts_view(r@)),
{
    let ghost ks = keys_view(keys@);
    let mut pk: Vec<Option<Vec<KeyValue>>> = Vec::with_capacity(sorted.len());
    let mut j: usize = 0;
    while j < sorted.len()
        invariant
            ks == keys_view(keys@),
            forall|i: int| 0 <= i < sorted.len() ==> (#[trigger] sorted@[i] as int) < keys.len(),
            0 <= j <= sorted.len(),
            pk.len() == j,
            forall|q: int| 0 <= q < j ==> okv(#[trigger] pk@[q]) == sorted_keys(ks, sorted@)[q],
        decreases sorted.len() - j,
    {
        pk.push(Some(clone_key_vec(&keys[sorted[j]])));
        j = j + 1;
    }
    assert(row_keys_view(pk@) =~= sorted_keys(ks, sorted@));
    let (order, pos) = partition_first_appearance(&pk);
    let ghost skeys = sorted_keys(ks, sorted@);
    let ghost pv = rows_view(pos@);
    let mut out: Vec<Vec<usize>> = Vec::with_capacity(pos.len());
    let mut p: usize = 0;
    while p < pos.len()
        invariant
            is_first_appearance_partition(skeys, order_view(order@), pv),
            pv == rows_view(pos@),
            skeys.len() == sorted.len(),
            0 <= p <= pos.len(),
            out.len() == p,
            forall|q: int| 0 <= q < p ==> (#[trigger] parts_view(out@)[q]) == rows_at(sorted@, pv)[q],
        decreases pos.len() - p,
    {
        let ps = &pos[p];
        let mut part: Vec<usize> = Vec::with_capacity(ps.len());
        let mut k: usize = 0;
        assert(pv[p as int] == ps@);
        assert(exact_rows(skeys, skeys.len() as int, order_view(order@)[p as int], pv[p as int]));
        while k < ps.len()
            invariant
                pv[p as int] == ps@,
                forall|t: int| 0 <= t < ps.len() ==> (#[trigger] ps@[t] as int) < sorted.len(),
                0 <= k <= ps.len(),
                part@ == ps@.take(k as int).map_values(|jj: usize| sorted@[jj as int]),
            decreases ps.len() - k,
        {
            assert((ps@[k as int] as int) < sorted.len());
            part.push(sorted[ps[k]]);
            assert(ps@.take(k + 1) =~= ps@.take(k as int).push(ps@[k as int]));
            assert(part@ =~= ps@.take(k + 1).map_values(|jj: usize| sorted@[jj as int]));
            k = k + 1;
        }
        assert(ps@.take(ps.len() as int) =~= ps@);
        let ghost before = parts_view(out@);
        out.push(part);
        assert(parts_view(out@) =~= before.push(rows_at(sorted@, pv)[p as int]));
        p = p + 1;
    }
    assert(parts_view(out@) =~= rows_at(sorted@, pv));
    assert(is_first_appearance_partition(skeys, order_view(order@), pv));
    out
}

/// No row occurs twice among the partitions and every row is below `n`.
pub open spec fn parts_disjoint(parts: Seq<Seq<usize>>, n: int) -> bool {
    &&& forall|p: int, j: int| 0 <= p < parts.len() && 0 <= j < parts[p].len() ==> (#[trigger] parts[p][j] as int) < n
    &&& forall|p: int, j: int, q: int, k: int|
        0 <= p < parts.len() && 0 <= j < parts[p].len() && 0 <= q < parts.len() && 0 <= k < parts[q].len()
        && (p != q || j != k) ==> #[trigger] parts[p][j] != #[trigger] parts[q][k]
}

/// Whether position `(p, j)` comes before `(p0, j0)` in partition order.
pub open spec fn pos_before(p: int, j: int, p0: int, j0: int) -> bool {
    p < p0 || (p == p0 && j < j0)
}

/// Check that no row occurs twice among the partitions and every row is
/// below `n`.
pub fn check_parts_disjoint(parts: &Vec<Vec<usize>>, n: usize) -> (r: bool)
    ensures
        r == parts_disjoint(parts_view(parts@), n as int),
{
    let ghost pv = parts_view(parts@);
    let mut seen: Vec<Option<(usize, usize)>> = Vec::with_capacity(n);
    let mut i: usize = 0;
    while i < n
        invariant
            0 <= i <= n,
            seen.len() == i,
            forall|k: int| 0 <= k < i ==> #[trigger] seen@[k] is None,
        decreases n - i,
    {
        seen.push(None);
        i = i + 1;
    }
    let mut p: usize = 0;
    while p < parts.len()
        invariant
            pv == parts_view(parts@),
            0 <= p <= parts.len(),
            seen.len() == n,
            forall|q: int, k: int| 0 <= q < p && 0 <= k < pv[q].len() ==> (#[trigger] pv[q][k] as int) < n,
            forall|q: int, k: int, q2: int, k2: int| 0 <= q < p && 0 <= k < pv[q].len() && 0 <= q2 < p && 0 <= k2 < pv[q2].len()
                && (q != q2 || k != k2) ==> #[trigger] pv[q][k] != #[trigger] pv[q2][k2],
            forall|x: int| 0 <= x < n ==> match #[trigger] seen@[x] {
                Some((q, k)) => (q as int) < p && (k as int) < pv[q as int].len() && pv[q as int][k as int] as int == x,
                None => forall|a: int, b: int| 0 <= a < p && 0 <= b < pv[a].len() ==> #[trigger] pv[a][b] as int != x,
            },
        decreases parts.len() - p,
    {
        let part = &parts[p];
        assert(part@ == pv[p as int]);
        let mut j: usize = 0;
        while j < part.len()
            invariant
                pv == parts_view(parts@),
                p < parts.len(),
                part@ == pv[p as int],
                0 <= j <= part.len(),
                seen.len() == n,
                forall|q: int, k: int| 0 <= q <= p && 0 <= k < pv[q].len() && pos_before(q, k, p as int, j as int)
                    ==> (#[trigger] pv[q][k] as int) < n,
                forall|q: int, k: int, q2: int, k2: int| 0 <= q <= p && 0 <= k < pv[q].len() && 0 <= q2 <= p && 0 <= k2 < pv[q2].len()
                    && pos_before(q, k, p as int, j as int) && pos_before(q2, k2, p as int, j as int)
                    && (q != q2 || k != k2) ==> #[trigger] pv[q][k] != #[trigger] pv[q2][k2],
                forall|x: int| 0 <= x < n ==> match #[trigger] seen@[x] {
                    Some((q, k)) => (q as int) <= p && (k as int) < pv[q as int].len() && pos_before(q as int, k as int, p as int, j as int)
                        && pv[q as int][k as int] as int == x,
                    None => forall|a: int, b: int| 0 <= a <= p && 0 <= b < pv[a].len() && pos_before(a, b, p as int, j as int)
                        ==> #[trigger] pv[a][b] as int != x,
                },
            decreases part.len() - j,
        {
            let x = part[j];
            if x >= n {
                assert(!(pv[p as int][j as int] < n));
                return false;
            }
            match seen[x] {
                Some((q, k)) => {
                    assert(pv[q as int][k as int] == pv[p as int][j as int]);
                    return false;
                },
                None => {},
            }
            seen.set(x, Some((p, j)));
            j = j + 1;
        }
        p = p + 1;
    }
    true
}

/// Row `r` occurs in no partition.
pub open spec fn in_no_part(parts: Seq<Seq<usize>>, r: int) -> bool {
    forall|p: int, j: int| 0 <= p < parts.len() && 0 <= j < parts[p].len() ==> #[trigger] parts[p][j] as int != r
}

/// Views of per-partition value lists.
pub open spec fn vals_view<T>(v: Seq<Vec<T>>) -> Seq<Seq<T>> {
    v.map_values(|x: Vec<T>| x@)
}

/// Write each partition's values to its rows: row `parts[p][j]` gets
/// `vals[p][j]`; rows in no partition get `None`.
pub fn scatter<T: Copy>(parts: &Vec<Vec<usize>>, vals: &Vec<Vec<T>>, n: usize) -> (r: Vec<Option<T>>)
    requires
        parts_disjoint(parts_view(parts@), n as int),
        vals.len() == parts.len(),
        forall|p: int| 0 <= p < parts.len() ==> (#[trigger] vals@[p]).len() == parts@[p].len(),
    ensures
        r.len() == n,
        forall|p: int, j: int| 0 <= p < parts.len() && 0 <= j < parts@[p].len()
            ==> r@[#[trigger] parts_view(parts@)[p][j] as int] == Some(vals_view(vals@)[p][j]),
        forall|row: int| 0 <= row < n && in_no_part(parts_view(parts@), row) ==> r@[row] is None,
{
    let ghost pv = parts_view(parts@);
    let ghost vv = vals_view(vals@);
    let mut r: Vec<Option<T>> = Vec::with_capacity(n);
    let mut i: usize = 0;
    while i < n
        invariant
            0 <= i <= n,
            r.len() == i,
            forall|k: int| 0 <= k < i ==> r@[k] is None,
        decreases n - i,
    {
        r.push(None);
        i = i + 1;
    }
    let mut p: usize = 0;
    while p < parts.len()
        invariant
            pv == parts_view(parts@),
            vv == vals_view(vals@),
            parts_disjoint(pv, n as int),
            vals.len() == parts.len(),
            forall|q: int| 0 <= q < parts.len() ==> (#[trigger] vals@[q]).len() == parts@[q].len(),
            0 <= p <= parts.len(),
            r.len() == n,
            forall|q: int, j: int| 0 <= q < p && 0 <= j < pv[q].len() ==> r@[#[trigger] pv[q][j] as int] == Some(vv[q][j]),
            forall|row: int| 0 <= row < n && (forall|q: int, j: int| 0 <= q < p && 0 <= j < pv[q].len() ==> #[trigger] pv[q][j] as int != row) ==> r@[row] is None,
        decreases parts.len() - p,
    {
        let mut j: usize = 0;
        assert(pv[p as int] == parts@[p as int]@);
        assert(vv[p as int] == vals@[p as int]@);
        while j < parts[p].len()
            invariant
                pv == parts_view(parts@),
                vv == vals_view(vals@),
                parts_disjoint(pv, n as int),
                vals.len() == parts.len(),
                forall|q: int| 0 <= q < parts.len() ==> (#[trigger] vals@[q]).len() == parts@[q].len(),
                pv[p as int] == parts@[p as int]@,
                vv[p as int] == vals@[p as int]@,
                0 <= p < parts.len(),
                0 <= j <= parts@[p as int].len(),
                r.len() == n,
                forall|q: int, k: int| 0 <= q < p && 0 <= k < pv[q].len() ==> r@[#[trigger] pv[q][k] as int] == Some(vv[q][k]),
                forall|k: int| 0 <= k < j ==> r@[#[trigger] pv[p as int][k] as int] == Some(vv[p as int][k]),
                forall|row: int| 0 <= row < n
                    && (forall|q: int, k: int| 0 <= q < p && 0 <= k < pv[q].len() ==> #[trigger] pv[q][k] as int != row)
                    && (forall|k: int| 0 <= k < j ==> #[trigger] pv[p as int][k] as int != row) ==> r@[row] is None,
            decreases parts@[p as int].len() - j,
        {
            let row = parts[p][j];
            let v = vals[p][j];
            assert(pv[p as int][j as int] == row);
            r.set(row, Some(v));
            proof {
                assert forall|q: int, k: int| 0 <= q < p && 0 <= k < pv[q].len() implies r@[#[trigger] pv[q][k] as int] == Some(vv[q][k]) by {
                    assert(pv[q][k] != pv[p as int][j as int]);
                }
                assert forall|k: int| 0 <= k < j + 1 implies r@[#[trigger] pv[p as int][k] as int] == Some(vv[p as int][k]) by {
                    if k < j {
                        assert(pv[p as int][k] != pv[p as int][j as int]);
                    }
                }
            }
            j = j + 1;
        }
        p = p + 1;
    }
    r
}

/// Row numbers within each partition: position + 1.
pub fn row_numbers(parts: &Vec<Vec<usize>>, n: usize) -> (r: Vec<Option<usize>>)
    requires
        parts_disjoint(parts_view(parts@), n as int),
    ensures
        r.len() == n,
        forall|p: int, j: int| 0 <= p < parts.len() && 0 <= j < parts@[p].len()
            ==> r@[#[trigger] parts_view(parts@)[p][j] as int] == Some((j + 1) as usize),
        forall|row: int| 0 <= row < n && in_no_part(parts_view(parts@), row) ==> r@[row] is None,
{
    let mut vals: Vec<Vec<usize>> = Vec::with_capacity(parts.len());
    let mut p: usize = 0;
    while p < parts.len()
        invariant
            0 <= p <= parts.len(),
            vals.len() == p,
            forall|q: int| 0 <= q < p ==> (#[trigger] vals@[q]).len() == parts@[q].len()
                && forall|k: int| 0 <= k < parts@[q].len() ==> vals@[q]@[k] == (k + 1) as usize,
        decreases parts.len() - p,
    {
        let len = parts[p].len();
        let mut v: Vec<usize> = Vec::with_capacity(len);
        let mut j: usize = 0;
        while j < len
            invariant
                0 <= j <= len,
                v.len() == j,
                forall|k: int| 0 <= k < j ==> v@[k] == (k + 1) as usize,
            decreases len - j,
        {
            v.push(j + 1);
            j = j + 1;
        }
        vals.push(v);
        p = p + 1;
    }
    scatter(parts, &vals, n)
}

/// Row-order key of a ranked field. `Unordered` (a missing or NaN number, or
/// a column that cannot be compared) ties with every key; numbers tie when
/// their order keys are equal and strings when they are equal.
#[derive(Debug, Clone)]
pub enum RankKey {
    Unordered,
    Num(u64),
    Text(String),
}

/// Whether two rank keys tie.
pub open spec fn rank_ties(a: RankKey, b: RankKey) -> bool {
    match (a, b) {
        (RankKey::Unordered, _) => true,
        (_, RankKey::Unordered) => true,
        (RankKey::Num(x), RankKey::Num(y)) => x == y,
        (RankKey::Text(x), RankKey::Text(y)) => x@ == y@,
        _ => false,
    }
}

fn ties(a: &RankKey, b: &RankKey) -> (r: bool)
    ensures
        r == rank_ties(*a, *b),
{
    match (a, b) {
        (RankKey::Unordered, _) => true,
        (_, RankKey::Unordered) => true,
        (RankKey::Num(x), RankKey::Num(y)) => *x == *y,
        (RankKey::Text(x), RankKey::Text(y)) => x.eq(y),
        _ => false,
    }
}

/// End of the tie run starting at position `i` of `part`, scanning from `j`:
/// the first position from `j` on whose key does not tie with position `i`'s.
pub open spec fn scan_end(ks: Seq<RankKey>, part: Seq<usize>, i: int, j: int) -> int
    decreases part.len() - j,
{
    if j >= part.len() {
        part.len() as int
    } else if rank_ties(ks[part[i] as int], ks[part[j] as int]) {
        scan_end(ks, part, i, j + 1)
    } else {
        j
    }
}

/// `scan_end` lies between `j` and the partition length.
pub proof fn lemma_scan_end_bounds(ks: Seq<RankKey>, part: Seq<usize>, i: int, j: int)
    requires
        j <= part.len(),
    ensures
        j <= scan_end(ks, part, i, j) <= part.len(),
    decreases part.len() - j,
{
    if j < part.len() && rank_ties(ks[part[i] as int], ks[part[j] as int]) {
        lemma_scan_end_bounds(ks, part, i, j + 1);
    }
}

/// Ranks of positions `i..` of a partition when the run at `i` gets rank
/// `rank`: each run (a position and the following positions that tie with
/// it) shares one rank; the next run's rank is one more (dense) or the
/// number of positions so far plus one (competition ranking).
pub open spec fn ranks_from(ks: Seq<RankKey>, part: Seq<usize>, i: int, rank: int, dense: bool) -> Seq<int>
    decreases part.len() - i,
{
    if i >= part.len() {
        Seq::empty()
    } else {
        let e = scan_end(ks, part, i, i + 1);
        if e <= i || e > part.len() {
            Seq::empty()
        } else {
            Seq::new((e - i) as nat, |k: int| rank) + ranks_from(ks, part, e, if dense { rank + 1 } else { rank + (e - i) }, dense)
        }
    }
}

/// The ranks of every position of a partition.
pub open spec fn spec_ranks(ks: Seq<RankKey>, part: Seq<usize>, dense: bool) -> Seq<int> {
    ranks_from(ks, part, 0, 1, dense)
}

/// Whether a rank key is ordered: a number or a string.
pub open spec fn is_ordered_key(k: RankKey) -> bool {
    !(k is Unordered)
}

/// Whether two ordered rank keys hold the same value: equal numbers or equal
/// strings.
pub open spec fn same_rank_value(a: RankKey, b: RankKey) -> bool {
    ||| a matches RankKey::Num(u) && b matches RankKey::Num(v) && u == v
    ||| a matches RankKey::Text(s) && b matches RankKey::Text(t) && s@ == t@
}

/// The scan from `j` stops at the first position whose key does not tie with
/// position `i`'s, every position before it tying.
proof fn lemma_scan_end_stops_at_first_untied(ks: Seq<RankKey>, part: Seq<usize>, i: int, j: int)
    requires
        0 <= j <= part.len(),
    ensures
        j <= scan_end(ks, part, i, j) <= part.len(),
        forall|k: int| j <= k < scan_end(ks, part, i, j) ==> rank_ties(ks[part[i] as int], #[trigger] ks[part[k] as int]),
        scan_end(ks, part, i, j) < part.len() ==> !rank_ties(ks[part[i] as int], ks[part[scan_end(ks, part, i, j)] as int]),
    decreases part.len() - j,
{
    if j < part.len() && rank_ties(ks[part[i] as int], ks[part[j] as int]) {
        lemma_scan_end_stops_at_first_untied(ks, part, i, j + 1);
    }
}

/// On ordered keys, two keys tie exactly when they hold the same value.
proof fn lemma_ordered_ties_are_equal_values(a: RankKey, b: RankKey)
    requires
        is_ordered_key(a),
        is_ordered_key(b),
    ensures
        rank_ties(a, b) <==> same_rank_value(a, b),
{
}

/// Whether ranks `ra` (position `a`) and `rb` (position `a + 1`) follow the
/// ranking step: the same rank for the same key value, else one more
/// (dense) or `base + a + 1` (competition).
pub open spec fn rank_step(ka: RankKey, kb: RankKey, ra: int, rb: int, dense: bool, next_competition: int) -> bool {
    &&& same_rank_value(ka, kb) ==> rb == ra
    &&& !same_rank_value(ka, kb) && dense ==> rb == ra + 1
    &&& !same_rank_value(ka, kb) && !dense ==> rb == next_competition
}

/// Ranks from position `i` of a partition of ordered keys, the run at `i`
/// ranked `rank`: the first position gets `rank`; each next position keeps
/// the previous rank when its key holds the same value, and otherwise gets
/// the previous rank plus one (dense) or `rank` plus its distance from `i`
/// (competition).
proof fn lemma_ranks_from_steps(ks: Seq<RankKey>, part: Seq<usize>, i: int, rank: int, dense: bool)
    requires
        0 <= i <= part.len(),
        forall|k: int| 0 <= k < part.len() ==> is_ordered_key(#[trigger] ks[part[k] as int]),
    ensures
        ranks_from(ks, part, i, rank, dense).len() == part.len() - i,
        i < part.len() ==> ranks_from(ks, part, i, rank, dense)[0] == rank,
        forall|a: int| 0 <= a && i + a + 1 < part.len() ==>
            #[trigger] rank_step(ks[part[i + a] as int], ks[part[i + a + 1] as int],
                ranks_from(ks, part, i, rank, dense)[a], ranks_from(ks, part, i, rank, dense)[a + 1], dense, rank + a + 1),
    decreases part.len() - i,
{
    if i < part.len() {
        let e = scan_end(ks, part, i, i + 1);
        lemma_scan_end_stops_at_first_untied(ks, part, i, i + 1);
        let next = if dense { rank + 1 } else { rank + (e - i) };
        lemma_ranks_from_steps(ks, part, e, next, dense);
        let head = Seq::new((e - i) as nat, |k: int| rank);
        let tail = ranks_from(ks, part, e, next, dense);
        let r = ranks_from(ks, part, i, rank, dense);
        assert(r == head + tail);
        let ki = ks[part[i] as int];
        assert(is_ordered_key(ki));
        assert forall|a: int| 0 <= a && i + a + 1 < part.len() implies
            #[trigger] rank_step(ks[part[i + a] as int], ks[part[i + a + 1] as int], r[a], r[a + 1], dense, rank + a + 1) by {
            let b = a + 1;
            let ka = ks[part[i + a] as int];
            let kb = ks[part[i + b] as int];
            assert(is_ordered_key(ka));
            assert(is_ordered_key(kb));
            if i + b < e {
                assert(rank_ties(ki, kb));
                if a == 0 {
                    lemma_ordered_ties_are_equal_values(ki, kb);
                } else {
                    assert(rank_ties(ki, ka));
                    lemma_ordered_ties_are_equal_values(ki, ka);
                    lemma_ordered_ties_are_equal_values(ki, kb);
                }
                assert(same_rank_value(ka, kb));
                assert(r[a] == rank && r[b] == rank);
            } else if i + b == e {
                assert(!rank_ties(ki, kb));
                lemma_ordered_ties_are_equal_values(ki, kb);
                if a == 0 {
                    assert(ka == ki);
                } else {
                    assert(rank_ties(ki, ka));
                    lemma_ordered_ties_are_equal_values(ki, ka);
                }
                assert(!same_rank_value(ka, kb));
                assert(r[a] == rank);
                assert(r[b] == tail[0]);
            } else {
                let a2 = a - (e - i);
                assert(r[a] == tail[a2]);
                assert(r[b] == tail[a2 + 1]);
                assert(e + a2 == i + a);
                assert(rank_step(ks[part[e + a2] as int], ks[part[e + a2 + 1] as int], tail[a2], tail[a2 + 1], dense, next + a2 + 1));
            }
        }
    }
}

/// From position `i` on, a position whose key is unordered (it ties with
/// every key) keeps the rank of the position before it.
proof fn lemma_ranks_from_unordered_keeps_rank(ks: Seq<RankKey>, part: Seq<usize>, i: int, rank: int, dense: bool)
    requires
        0 <= i <= part.len(),
    ensures
        ranks_from(ks, part, i, rank, dense).len() == part.len() - i,
        forall|a: int| 0 <= a && i + a + 1 < part.len() && (#[trigger] ks[part[i + a + 1] as int]) is Unordered ==>
            ranks_from(ks, part, i, rank, dense)[a + 1] == ranks_from(ks, part, i, rank, dense)[a],
    decreases part.len() - i,
{
    if i < part.len() {
        let e = scan_end(ks, part, i, i + 1);
        lemma_scan_end_stops_at_first_untied(ks, part, i, i + 1);
        let next = if dense { rank + 1 } else { rank + (e - i) };
        lemma_ranks_from_unordered_keeps_rank(ks, part, e, next, dense);
        let head = Seq::new((e - i) as nat, |k: int| rank);
        let tail = ranks_from(ks, part, e, next, dense);
        let r = ranks_from(ks, part, i, rank, dense);
        assert(r == head + tail);
        assert forall|a: int| 0 <= a && i + a + 1 < part.len() && (#[trigger] ks[part[i + a + 1] as int]) is Unordered implies
            r[a + 1] == r[a] by {
            let b = a + 1;
            if i + b < e {
                assert(r[a] == rank && r[b] == rank);
            } else if i + b == e {
                assert(rank_ties(ks[part[i] as int], ks[part[i + b] as int]));
            } else {
                let a2 = a - (e - i);
                assert(r[a] == tail[a2]);
                assert(r[b] == tail[a2 + 1]);
                assert(e + a2 + 1 == i + a + 1);
                assert(ks[part[e + a2 + 1] as int] is Unordered);
            }
        }
    }
}

/// A position whose rank key is unordered (a null, NaN or incomparable cell,
/// which ties with every key) gets the same rank as the position before it.
pub proof fn lemma_unordered_key_keeps_rank(ks: Seq<RankKey>, part: Seq<usize>, dense: bool)
    ensures
        forall|a: int| 0 <= a && a + 1 < part.len() && (#[trigger] ks[part[a + 1] as int]) is Unordered ==>
            spec_ranks(ks, part, dense)[a + 1] == spec_ranks(ks, part, dense)[a],
{
    lemma_ranks_from_unordered_keeps_rank(ks, part, 0, 1, dense);
    assert forall|a: int| 0 <= a && a + 1 < part.len() && (#[trigger] ks[part[a + 1] as int]) is Unordered implies
        spec_ranks(ks, part, dense)[a + 1] == spec_ranks(ks, part, dense)[a] by {
        assert(ks[part[0 + a + 1] as int] is Unordered);
    }
}

/// Ranks within a partition of ordered keys (numbers or strings): the first
/// position is ranked 1, and each next position keeps the previous rank when
/// its key holds the same value (equal numbers or equal strings tie), and
/// otherwise gets the previous rank plus one (dense) or its own 1-based
/// position (competition ranking).
pub proof fn lemma_rank_steps(ks: Seq<RankKey>, part: Seq<usize>, dense: bool)
    requires
        forall|k: int| 0 <= k < part.len() ==> is_ordered_key(#[trigger] ks[part[k] as int]),
    ensures
        spec_ranks(ks, part, dense).len() == part.len(),
        part.len() > 0 ==> spec_ranks(ks, part, dense)[0] == 1,
        forall|a: int| 0 <= a && a + 1 < part.len() ==>
            #[trigger] rank_step(ks[part[a] as int], ks[part[a + 1] as int],
                spec_ranks(ks, part, dense)[a], spec_ranks(ks, part, dense)[a + 1], dense, a + 2),
{
    lemma_ranks_from_steps(ks, part, 0, 1, dense);
    assert forall|a: int| 0 <= a && a + 1 < part.len() implies
        #[trigger] rank_step(ks[part[a] as int], ks[part[a + 1] as int],
            spec_ranks(ks, part, dense)[a], spec_ranks(ks, part, dense)[a + 1], dense, a + 2) by {
        assert(rank_step(ks[part[0 + a] as int], ks[part[0 + a + 1] as int],
            ranks_from(ks, part, 0, 1, dense)[a], ranks_from(ks, part, 0, 1, dense)[a + 1], dense, 1 + a + 1));
    }
}

fn part_ranks(keys: &Vec<RankKey>, part: &Vec<usize>, dense: bool) -> (r: Vec<usize>)
    requires
        part.len() < usize::MAX,
        forall|k: int| 0 <= k < part.len() ==> (#[trigger] part@[k] as int) < keys.len(),
    ensures
        r.len() == part.len(),
        forall|k: int| 0 <= k < part.len() ==> r@[k] as int == spec_ranks(keys@, part@, dense)[k],
{
    let ghost ks = keys@;
    let len = part.len();
    let mut out: Vec<usize> = Vec::with_capacity(len);
    let mut rank: usize = 1;
    let mut i: usize = 0;
    while i < len
        invariant
            ks == keys@,
            len == part.len(),
            len < usize::MAX,
            forall|k: int| 0 <= k < part.len() ==> (#[trigger] part@[k] as int) < keys.len(),
            0 <= i <= len,
            out.len() == i,
            1 <= rank <= i + 1,
            out@.map_values(|x: usize| x as int) + ranks_from(ks, part@, i as int, rank as int, dense) == spec_ranks(ks, part@, dense),
        decreases len - i,
    {
        let mut j: usize = i + 1;
        while j < len && ties(&keys[part[i]], &keys[part[j]])
            invariant
                ks == keys@,
                len == part.len(),
                forall|k: int| 0 <= k < part.len() ==> (#[trigger] part@[k] as int) < keys.len(),
                i < len,
                i + 1 <= j <= len,
                scan_end(ks, part@, i as int, i + 1) == scan_end(ks, part@, i as int, j as int),
            decreases len - j,
        {
            j = j + 1;
        }
        proof {
            lemma_scan_end_bounds(ks, part@, i as int, i + 1);
            assert(scan_end(ks, part@, i as int, j as int) == j);
        }
        let ghost old_out = out@.map_values(|x: usize| x as int);
        let mut k: usize = i;
        while k < j
            invariant
                i <= k <= j,
                out.len() == k,
                out@.map_values(|x: usize| x as int) =~= old_out + Seq::new((k - i) as nat, |q: int| rank as int),
            decreases j - k,
        {
            let ghost before = out@.map_values(|x: usize| x as int);
            out.push(rank);
            assert(out@.map_values(|x: usize| x as int) =~= before.push(rank as int));
            k = k + 1;
        }
        let ghost next = if dense { rank + 1 } else { rank + (j - i) };
        assert(out@.map_values(|x: usize| x as int) + ranks_from(ks, part@, j as int, next as int, dense)
            =~= old_out + ranks_from(ks, part@, i as int, rank as int, dense));
        if dense {
            rank = rank + 1;
        } else {
            rank = rank + (j - i);
        }
        i = j;
    }
    assert(out@.map_values(|x: usize| x as int) + ranks_from(ks, part@, i as int, rank as int, dense) =~= out@.map_values(|x: usize| x as int));
    assert forall|k: int| 0 <= k < part.len() implies out@[k] as int == spec_ranks(keys@, part@, dense)[k] by {
        assert(out@.map_values(|x: usize| x as int)[k] == out@[k] as int);
    }
    out
}

/// Competition ranks (`dense == false`: a run of ties shares the rank of its
/// first position, and the next run skips the tied places) or dense ranks
/// (`dense == true`: consecutive runs get consecutive ranks) within each
/// partition, over the rows' rank keys.
pub fn tie_ranks(parts: &Vec<Vec<usize>>, keys: &Vec<RankKey>, dense: bool, n: usize) -> (r: Vec<Option<usize>>)
    requires
        parts_disjoint(parts_view(parts@), n as int),
        keys.len() == n,
        forall|p: int| 0 <= p < parts.len() ==> (#[trigger] parts@[p]).len() < usize::MAX,
    ensures
        r.len() == n,
        forall|p: int, j: int| 0 <= p < parts.len() && 0 <= j < parts@[p].len()
            ==> r@[#[trigger] parts_view(parts@)[p][j] as int] is Some
                && r@[parts_view(parts@)[p][j] as int]->0 as int == spec_ranks(keys@, parts@[p]@, dense)[j],
        forall|row: int| 0 <= row < n && in_no_part(parts_view(parts@), row) ==> r@[row] is None,
{
    let ghost pv = parts_view(parts@);
    let mut vals: Vec<Vec<usize>> = Vec::with_capacity(parts.len());
    let mut p: usize = 0;
    while p < parts.len()
        invariant
            pv == parts_view(parts@),
            parts_disjoint(pv, n as int),
            keys.len() == n,
            forall|q: int| 0 <= q < parts.len() ==> (#[trigger] parts@[q]).len() < usize::MAX,
            0 <= p <= parts.len(),
            vals.len() == p,
            forall|q: int| 0 <= q < p ==> (#[trigger] vals@[q]).len() == parts@[q].len()
                && forall|k: int| 0 <= k < parts@[q].len() ==> vals@[q]@[k] as int == spec_ranks(keys@, parts@[q]@, dense)[k],
        decreases parts.len() - p,
    {
        assert(pv[p as int] == parts@[p as int]@);
        let v = part_ranks(keys, &parts[p], dense);
        vals.push(v);
        p = p + 1;
    }
    let r = scatter(parts, &vals, n);
    assert forall|p: int, j: int| 0 <= p < parts.len() && 0 <= j < parts@[p].len()
        implies r@[#[trigger] pv[p][j] as int] is Some && r@[pv[p][j] as int]->0 as int == spec_ranks(keys@, parts@[p]@, dense)[j] by {
        assert(vals_view(vals@)[p][j] == vals@[p]@[j]);
    }
    r
}

/// Source position of a lag (`pos - offset`) or lead (`pos + offset`).
pub open spec fn spec_shift(pos: int, offset: i64, lag: bool) -> int {
    if lag { pos - offset } else { pos + offset }
}

/// Every lag/lead source position of a partition of `len` rows fits in an
/// `i64` (checked at the two ends, the shift being monotone in the position).
pub open spec fn shift_fits(len: int, offset: i64, lag: bool) -> bool {
    &&& len <= i64::MAX
    &&& len > 0 ==> i64::MIN <= spec_shift(0, offset, lag) <= i64::MAX && i64::MIN <= spec_shift(len - 1, offset, lag) <= i64::MAX
}

/// For each row, the row whose value a lag (`lag == true`) or lead reads:
/// the row `offset` positions before (lag) or after (lead) it in its
/// partition, or `None` when that position falls outside the partition.
pub fn shift_sources(parts: &Vec<Vec<usize>>, offset: i64, lag: bool, n: usize) -> (r: Vec<Option<usize>>)
    requires
        parts_disjoint(parts_view(parts@), n as int),
        forall|p: int| 0 <= p < parts.len() ==> shift_fits((#[trigger] parts@[p]).len() as int, offset, lag),
    ensures
        r.len() == n,
        forall|p: int, j: int| 0 <= p < parts.len() && 0 <= j < parts@[p].len()
            ==> r@[#[trigger] parts_view(parts@)[p][j] as int] == (if 0 <= spec_shift(j, offset, lag) && (spec_shift(j, offset, lag) as usize) < parts@[p].len() {
                Some(parts@[p]@[spec_shift(j, offset, lag) as usize as int])
            } else {
                None
            }),
        forall|row: int| 0 <= row < n && in_no_part(parts_view(parts@), row) ==> r@[row] is None,
{
    let ghost pv = parts_view(parts@);
    let mut vals: Vec<Vec<Option<usize>>> = Vec::with_capacity(parts.len());
    let mut p: usize = 0;
    while p < parts.len()
        invariant
            pv == parts_view(parts@),
            forall|q: int| 0 <= q < parts.len() ==> shift_fits((#[trigger] parts@[q]).len() as int, offset, lag),
            0 <= p <= parts.len(),
            vals.len() == p,
            forall|q: int| 0 <= q < p ==> (#[trigger] vals@[q]).len() == parts@[q].len()
                && forall|k: int| 0 <= k < parts@[q].len() ==> vals@[q]@[k] == (if 0 <= spec_shift(k, offset, lag) && (spec_shift(k, offset, lag) as usize) < parts@[q].len() {
                    Some(parts@[q]@[spec_shift(k, offset, lag) as usize as int])
                } else {
                    None
                }),
        decreases parts.len() - p,
    {
        let part = &parts[p];
        let len = part.len();
        assert(shift_fits(len as int, offset, lag));
        let mut v: Vec<Option<usize>> = Vec::with_capacity(len);
        let mut j: usize = 0;
        while j < len
            invariant
                part == &parts@[p as int],
                len == part.len(),
                p < parts.len(),
                shift_fits(len as int, offset, lag),
                0 <= j <= len,
                v.len() == j,
                forall|k: int| 0 <= k < j ==> v@[k] == (if 0 <= spec_shift(k, offset, lag) && (spec_shift(k, offset, lag) as usize) < len {
                    Some(part@[spec_shift(k, offset, lag) as usize as int])
                } else {
                    None
                }),
            decreases len - j,
        {
            assert(parts@[p as int].len() == len);
            let pos = j as i64;
            let src: i64 = if lag { pos - offset } else { pos + offset };
            assert(src as int == spec_shift(j as int, offset, lag));
            if src >= 0 && (src as usize) < len {
                v.push(Some(part[src as usize]));
            } else {
                v.push(None);
            }
            j = j + 1;
        }
        vals.push(v);
        p = p + 1;
    }
    let nested = scatter(parts, &vals, n);
    let mut r: Vec<Option<usize>> = Vec::with_capacity(n);
    let mut i: usize = 0;
    while i < n
        invariant
            nested.len() == n,
            0 <= i <= n,
            r.len() == i,
            forall|k: int| 0 <= k < i ==> r@[k] == match nested@[k] { Some(x) => x, None => None },
        decreases n - i,
    {
        r.push(match nested[i] { Some(x) => x, None => None });
        i = i + 1;
    }
    assert forall|p: int, j: int| 0 <= p < parts.len() && 0 <= j < parts@[p].len()
        implies r@[#[trigger] pv[p][j] as int] == (if 0 <= spec_shift(j, offset, lag) && (spec_shift(j, offset, lag) as usize) < parts@[p].len() {
            Some(parts@[p]@[spec_shift(j, offset, lag) as usize as int])
        } else {
            None
        }) by {
        assert(vals_view(vals@)[p][j] == vals@[p]@[j]);
        assert(nested@[pv[p][j] as int] == Some(vals_view(vals@)[p][j]));
    }
    r
}

/// For each row, the first (`first == true`) or last row of its partition.
pub fn edge_sources(parts: &Vec<Vec<usize>>, first: bool, n: usize) -> (r: Vec<Option<usize>>)
    requires
        parts_disjoint(parts_view(parts@), n as int),
    ensures
        r.len() == n,
        forall|p: int, j: int| 0 <= p < parts.len() && 0 <= j < parts@[p].len()
            ==> r@[#[trigger] parts_view(parts@)[p][j] as int] == Some(if first { parts@[p]@[0] } else { parts@[p]@.last() }),
        forall|row: int| 0 <= row < n && in_no_part(parts_view(parts@), row) ==> r@[row] is None,
{
    let ghost pv = parts_view(parts@);
    let mut vals: Vec<Vec<usize>> = Vec::with_capacity(parts.len());
    let mut p: usize = 0;
    while p < parts.len()
        invariant
            pv == parts_view(parts@),
            0 <= p <= parts.len(),
            vals.len() == p,
            forall|q: int| 0 <= q < p ==> (#[trigger] vals@[q]).len() == parts@[q].len()
                && forall|k: int| 0 <= k < parts@[q].len() ==> vals@[q]@[k] == if first { parts@[q]@[0] } else { parts@[q]@.last() },
        decreases parts.len() - p,
    {
        let part = &parts[p];
        let len = part.len();
        let mut v: Vec<usize> = Vec::with_capacity(len);
        if len > 0 {
            let src = if first { part[0] } else { part[len - 1] };
            let mut j: usize = 0;
            while j < len
                invariant
                    0 <= j <= len,
                    v.len() == j,
                    forall|k: int| 0 <= k < j ==> v@[k] == src,
                decreases len - j,
            {
                v.push(src);
                j = j + 1;
            }
        }
        vals.push(v);
        p = p + 1;
    }
    let r = scatter(parts, &vals, n);
    assert forall|p: int, j: int| 0 <= p < parts.len() && 0 <= j < parts@[p].len()
        implies r@[#[trigger] pv[p][j] as int] == Some(if first { parts@[p]@[0] } else { parts@[p]@.last() }) by {
        assert(vals_view(vals@)[p][j] == vals@[p]@[j]);
    }
    r
}

/// The frame of position `pos` in a partition of `len` rows: from
/// `pos + preceding` (at least 0; 0 when unbounded) up to, excluding,
/// `pos + following + 1` taken as an unsigned index (at most `len`; `len`
/// when unbounded).
pub open spec fn spec_frame(pos: int, len: int, preceding: Option<i64>, following: Option<i64>) -> (usize, usize) {
    let start: usize = match preceding {
        Some(q) => if pos + q > 0 { (pos + q) as usize } else { 0 },
        None => 0,
    };
    let end: usize = match following {
        Some(f) => if ((pos + f + 1) as i64) as usize <= len { ((pos + f + 1) as i64) as usize } else { len as usize },
        None => len as usize,
    };
    (start, end)
}

/// Whether position `k` lies in frame `fr` (from `fr.0` up to, excluding,
/// `fr.1`).
pub open spec fn in_frame(fr: (usize, usize), k: int) -> bool {
    fr.0 <= k < fr.1
}

/// The frame of a position holds exactly the positions of the partition
/// that lie within its bounds: at or after `pos + preceding` (any position
/// when `preceding` is unbounded) and at or before `pos + following` (any
/// position when `following` is unbounded), counting from 0. So an
/// unbounded frame end is the partition's length and an unbounded start is 0.
pub proof fn lemma_frame_holds_positions_within_bounds(pos: int, len: int, preceding: Option<i64>, following: Option<i64>)
    requires
        0 <= pos < len <= usize::MAX,
        frame_fits(len, preceding, following),
        following matches Some(f) ==> 0 <= pos + f + 1 <= usize::MAX,
        preceding matches Some(q) ==> pos + q <= usize::MAX,
    ensures
        preceding is None ==> spec_frame(pos, len, preceding, following).0 == 0,
        following is None ==> spec_frame(pos, len, preceding, following).1 == len,
        spec_frame(pos, len, preceding, following).1 <= len,
        forall|k: int| 0 <= k < len ==> (#[trigger] in_frame(spec_frame(pos, len, preceding, following), k)
            <==> (match preceding { Some(q) => pos + q <= k, None => true })
                && (match following { Some(f) => k <= pos + f, None => true })),
{
    match following {
        Some(f) => {
            let x = pos + f + 1;
            assert(0 <= x <= i64::MAX);
            assert((x as i64) as int == x);
            assert(((x as i64) as usize) as int == x) by {
                let y = x as i64;
                assert(0 <= y <= usize::MAX);
            }
        },
        None => {},
    }
    match preceding {
        Some(q) => {
            assert(i64::MIN <= q);
            if pos + q > 0 {
                assert(((pos + q) as usize) as int == pos + q);
            }
        },
        None => {},
    }
}

/// Every frame bound of a partition of `len` rows fits in an `i64`.
pub open spec fn frame_fits(len: int, preceding: Option<i64>, following: Option<i64>) -> bool {
    &&& len <= i64::MAX
    &&& (preceding matches Some(q) ==> (len > 0 ==> i64::MIN <= q && len - 1 + q <= i64::MAX))
    &&& (following matches Some(f) ==> (len > 0 ==> i64::MIN <= f + 1 && len + f <= i64::MAX))
}

/// The rolling-aggregate frame `(start, end)` of every position of every
/// partition (positions `start..end` of the partition; empty when
/// `start >= end`).
pub fn frames(parts: &Vec<Vec<usize>>, preceding: Option<i64>, following: Option<i64>) -> (r: Vec<Vec<(usize, usize)>>)
    requires
        forall|p: int| 0 <= p < parts.len() ==> frame_fits((#[trigger] parts@[p]).len() as int, preceding, following),
    ensures
        r.len() == parts.len(),
        forall|p: int| 0 <= p < parts.len() ==> (#[trigger] r@[p]).len() == parts@[p].len()
            && forall|j: int| 0 <= j < parts@[p].len() ==> r@[p]@[j] == spec_frame(j, parts@[p].len() as int, preceding, following),
{
    let mut out: Vec<Vec<(usize, usize)>> = Vec::with_capacity(parts.len());
    let mut p: usize = 0;
    while p < parts.len()
        invariant
            forall|q: int| 0 <= q < parts.len() ==> frame_fits((#[trigger] parts@[q]).len() as int, preceding, following),
            0 <= p <= parts.len(),
            out.len() == p,
            forall|q: int| 0 <= q < p ==> (#[trigger] out@[q]).len() == parts@[q].len()
                && forall|j: int| 0 <= j < parts@[q].len() ==> out@[q]@[j] == spec_frame(j, parts@[q].len() as int, preceding, following),
        decreases parts.len() - p,
    {
        let len = parts[p].len();
        assert(frame_fits(len as int, preceding, following));
        let mut v: Vec<(usize, usize)> = Vec::with_capacity(len);
        let mut j: usize = 0;
        while j < len
            invariant
                p < parts.len(),
                len == parts@[p as int].len(),
                frame_fits(len as int, preceding, following),
                0 <= j <= len,
                v.len() == j,
                forall|k: int| 0 <= k < j ==> v@[k] == spec_frame(k, len as int, preceding, following),
            decreases len - j,
        {
            let pos = j as i64;
            let start: usize = match preceding {
                Some(q) => {
                    let s = pos + q;
                    if s > 0 { s as usize } else { 0 }
                },
                None => 0,
            };
            let end: usize = match following {
                Some(f) => {
                    let e = (pos + f + 1) as usize;
                    if e <= len { e } else { len }
                },
                None => len,
            };
            v.push((start, end));
            j = j + 1;
        }
        out.push(v);
        p = p + 1;
    }
    out
}

/// The window operations.
#[derive(Debug, Clone, Copy, PartialEq, Eq, Structural)]
pub enum WindowOpKind {
    RowNumber,
    Rank,
    DenseRank,
    Lag,
    Lead,
    FirstValue,
    LastValue,
    Sum,
    Mean,
    Count,
    Min,
    Max,
}

/// The operation named `op`, if it is one.
pub open spec fn spec_window_op(op: Seq<char>) -> Option<WindowOpKind> {
    if op == "row_number"@ { Some(WindowOpKind::RowNumber) }
    else if op == "rank"@ { Some(WindowOpKind::Rank) }
    else if op == "dense_rank"@ { Some(WindowOpKind::DenseRank) }
    else if op == "lag"@ { Some(WindowOpKind::Lag) }
    else if op == "lead"@ { Some(WindowOpKind::Lead) }
    else if op == "first_value"@ { Some(WindowOpKind::FirstValue) }
    else if op == "last_value"@ { Some(WindowOpKind::LastValue) }
    else if op == "sum"@ { Some(WindowOpKind::Sum) }
    else if op == "mean"@ { Some(WindowOpKind::Mean) }
    else if op == "count"@ { Some(WindowOpKind::Count) }
    else if op == "min"@ { Some(WindowOpKind::Min) }
    else if op == "max"@ { Some(WindowOpKind::Max) }
    else { None }
}

/// The window operation named `op`; `None` for an unknown operation.
pub fn parse_window_op(op: &str) -> (r: Option<WindowOpKind>)
    ensures
        r == spec_window_op(op@),
{
    if str_is(op, "row_number") { Some(WindowOpKind::RowNumber) }
    else if str_is(op, "rank") { Some(WindowOpKind::Rank) }
    else if str_is(op, "dense_rank") { Some(WindowOpKind::DenseRank) }
    else if str_is(op, "lag") { Some(WindowOpKind::Lag) }
    else if str_is(op, "lead") { Some(WindowOpKind::Lead) }
    else if str_is(op, "first_value") { Some(WindowOpKind::FirstValue) }
    else if str_is(op, "last_value") { Some(WindowOpKind::LastValue) }
    else if str_is(op, "sum") { Some(WindowOpKind::Sum) }
    else if str_is(op, "mean") { Some(WindowOpKind::Mean) }
    else if str_is(op, "count") { Some(WindowOpKind::Count) }
    else if str_is(op, "min") { Some(WindowOpKind::Min) }
    else if str_is(op, "max") { Some(WindowOpKind::Max) }
    else { None }
}

/// Every row's full key tuple (null cells included as `Null`).
pub open spec fn spec_full_row_keys(t: Table, idx: Seq<usize>) -> Seq<Seq<KeyView>> {
    Seq::new(t.n_rows as nat, |r: int| spec_group_row_key(t, idx, r, false)->0)
}

/// Group the sorted row order by groupby columns: without a groupby column
/// the whole sorted order is one group; otherwise one group per distinct key
/// tuple (null cells keyed as `Null`), in order of first appearance, holding
/// that key's rows in sorted order. The columns must all exist, and then all
/// be of key dtypes.
pub fn group_sorted_rows(batch: &Table, groupby: &Vec<String>, sorted_indices: &Vec<usize>, ctx: &str) -> (r: Result<Vec<Vec<usize>>, GroupError>)
    requires
        batch.wf(),
        forall|i: int| 0 <= i < sorted_indices.len() ==> (#[trigger] sorted_indices@[i] as int) < batch.n_rows,
    ensures
        match r {
            Ok(parts) => {
                &&& forall|d: int| 0 <= d < groupby.len() ==> spec_col_ok(*batch, groupby@, d)
                &&& groupby.len() > 0 ==> is_key_groups(spec_full_row_keys(*batch, spec_resolved(*batch, groupby@)), sorted_indices@, parts_view(parts@))
                &&& groupby.len() == 0 ==> parts_view(parts@) == seq![sorted_indices@]
            },
            Err(e) => two_phase_error(*batch, groupby@, ctx@, e),
        },
{
    if groupby.len() == 0 {
        let mut one: Vec<Vec<usize>> = Vec::new();
        one.push(sorted_indices.clone());
        assert(parts_view(one@) =~= seq![sorted_indices@]);
        return Ok(one);
    }
    let (idx, dts) = resolve_group_cols_two_phase(batch, groupby, ctx)?;
    let opt_keys = table_row_keys(batch, &idx, &dts, false);
    assert(row_keys_view(opt_keys@).len() == opt_keys.len());
    let mut keys: Vec<Vec<KeyValue>> = Vec::with_capacity(opt_keys.len());
    let mut i: usize = 0;
    while i < opt_keys.len()
        invariant
            row_keys_view(opt_keys@) == crate::partition::spec_group_row_keys(*batch, idx@, false),
            opt_keys.len() == batch.n_rows,
            0 <= i <= opt_keys.len(),
            keys.len() == i,
            forall|k: int| 0 <= k < i ==> kv((#[trigger] keys@[k])@) == spec_group_row_key(*batch, idx@, k, false)->0,
        decreases opt_keys.len() - i,
    {
        assert(row_keys_view(opt_keys@)[i as int] == okv(opt_keys@[i as int]));
        match &opt_keys[i] {
            Some(k) => keys.push(crate::group_key::clone_key_vec(k)),
            None => {
                assert(crate::partition::spec_group_row_keys(*batch, idx@, false)[i as int] is Some);
                keys.push(Vec::new());
            },
        }
        i = i + 1;
    }
    assert(keys_view(keys@) =~= spec_full_row_keys(*batch, idx@));
    Ok(group_in_order(&keys, sorted_indices))
}

/// Partitions of the sorted row order for a window transform: without a
/// groupby (absent or empty) the whole sorted order is one partition;
/// otherwise one partition per distinct groupby key tuple, in order of first
/// appearance, holding that key's rows in sorted order.
pub fn build_partitions(batch: &Table, groupby: &Option<Vec<String>>, sorted_indices: &Vec<usize>) -> (r: Result<Vec<Vec<usize>>, GroupError>)
    requires
        batch.wf(),
        forall|i: int| 0 <= i < sorted_indices.len() ==> (#[trigger] sorted_indices@[i] as int) < batch.n_rows,
    ensures
        match r {
            Ok(parts) => match groupby {
                Some(g) if g.len() > 0 => is_key_groups(spec_full_row_keys(*batch, spec_resolved(*batch, g@)), sorted_indices@, parts_view(parts@)),
                _ => parts_view(parts@) == seq![sorted_indices@],
            },
            Err(e) => groupby is Some && two_phase_error(*batch, groupby->0@, "data_window"@, e),
        },
{
    match groupby {
        None => {
            let mut one: Vec<Vec<usize>> = Vec::new();
            one.push(sorted_indices.clone());
            assert(parts_view(one@) =~= seq![sorted_indices@]);
            Ok(one)
        },
        Some(g) => group_sorted_rows(batch, g, sorted_indices, "data_window"),
    }
}


/// Why a window operation cannot run.
#[derive(Debug, Clone, PartialEq, Eq)]
pub enum WindowError {
    /// No operation was given.
    EmptyOps,
    /// The operation name is not known.
    UnknownOp(String),
    /// The operation (named here) reads a field and none was given.
    RequiresField(String),
    /// The field names no column.
    ColumnNotFound(String),
}

/// What one window operation reads: its kind, the column of its field (if
/// it reads one), and the lag/lead offset (1 unless given).
#[derive(Debug, Clone)]
pub struct WindowOpPlan {
    pub kind: WindowOpKind,
    pub column: Option<usize>,
    pub offset: i64,
}

/// Whether the operation reads a field it cannot do without.
pub open spec fn needs_field(k: WindowOpKind) -> bool {
    !(k == WindowOpKind::RowNumber || k == WindowOpKind::Rank || k == WindowOpKind::DenseRank)
}

/// Resolve one window operation against the column names. Ranks without a
/// field (or with an empty one) number the rows and read no column; a rank
/// field is looked up only when there is a partition to rank. Every other
/// operation but `row_number` needs a field that names a column.
pub fn resolve_window_op(names: &Vec<String>, op: &str, field: &Option<String>, param: Option<i64>, has_partitions: bool) -> (r: Result<WindowOpPlan, WindowError>)
    ensures
        match r {
            Ok(p) => spec_window_op(op@) == Some(p.kind)
                && p.offset == match param { Some(o) => o, None => 1i64 }
                && match p.column {
                    Some(c) => field is Some && spec_index_of(names@, field->0@) == Some(c as int)
                        && p.kind != WindowOpKind::RowNumber
                        && (needs_field(p.kind) || (field->0@.len() > 0 && has_partitions)),
                    None => p.kind == WindowOpKind::RowNumber
                        || (!needs_field(p.kind) && (field is None || field->0@.len() == 0 || !has_partitions)),
                },
            Err(WindowError::UnknownOp(o)) => spec_window_op(op@) is None && o@ == op@,
            Err(WindowError::RequiresField(o)) => spec_window_op(op@) is Some && needs_field(spec_window_op(op@)->0)
                && field is None && o@ == op@,
            Err(WindowError::ColumnNotFound(f)) => spec_window_op(op@) is Some && field is Some && f@ == field->0@
                && spec_index_of(names@, f@) is None
                && (needs_field(spec_window_op(op@)->0) || (spec_window_op(op@) != Some(WindowOpKind::RowNumber)
                    && f@.len() > 0 && has_partitions)),
            Err(WindowError::EmptyOps) => false,
        },
{
    let kind = match parse_window_op(op) {
        Some(k) => k,
        None => {
            return Err(WindowError::UnknownOp(String::from_str(op)));
        },
    };
    let offset: i64 = match param { Some(o) => o, None => 1 };
    match kind {
        WindowOpKind::RowNumber => Ok(WindowOpPlan { kind, column: None, offset }),
        WindowOpKind::Rank | WindowOpKind::DenseRank => {
            match field {
                None => Ok(WindowOpPlan { kind, column: None, offset }),
                Some(f) => {
                    if f.as_str().unicode_len() == 0 || !has_partitions {
                        Ok(WindowOpPlan { kind, column: None, offset })
                    } else {
                        match index_of(names, f) {
                            Some(c) => Ok(WindowOpPlan { kind, column: Some(c), offset }),
                            None => Err(WindowError::ColumnNotFound(f.clone())),
                        }
                    }
                },
            }
        },
        _ => {
            match field {
                None => Err(WindowError::RequiresField(String::from_str(op))),
                Some(f) => match index_of(names, f) {
                    Some(c) => Ok(WindowOpPlan { kind, column: Some(c), offset }),
                    None => Err(WindowError::ColumnNotFound(f.clone())),
                },
            }
        },
    }
}

/// The value a window operation reads at `row`, as a bit pattern: the cell
/// of a `Float64` column, and NaN for a null cell or any other dtype.
pub open spec fn spec_window_value(c: ColumnData, row: int) -> u64 {
    match c {
        ColumnData::Float64(v) => match v@[row] { Some(b) => b, None => NAN_BITS },
        _ => NAN_BITS,
    }
}

/// Read the value a window operation sees at `row`.
pub fn window_value(c: &ColumnData, row: usize) -> (r: u64)
    requires
        row < spec_col_len(*c),
    ensures
        r == spec_window_value(*c, row as int),
{
    match c {
        ColumnData::Float64(v) => match v[row] { Some(b) => b, None => NAN_BITS },
        _ => NAN_BITS,
    }
}

} // verus!
