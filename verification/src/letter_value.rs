//! Letter values (boxen plots): how many depths each group gets, which rows
//! and groups take part, how the output rows are laid out and labelled, and
//! the names of the secondary outputs.

use vstd::prelude::*;
use crate::dtype::DType;
use crate::column::{ColumnData, Table, index_of, spec_index_of, spec_col_dtype, spec_col_len};
use crate::group_key::{KeyValue, KeyView};
use crate::options::KDepthKind;
use crate::partition::{partition_sorted, is_sorted_partition, order_view, rows_view, row_keys_view, okv};
use crate::stat_groups::{spec_is_nan_bits, is_nan_bits};

verus! {

/// The largest depth a group gets, and the number of per-depth outputs.
pub const K_MAX_NAMED: usize = 8;

/// `floor(log2(n))` for `n >= 1`, and 0 for `n == 0`.
pub open spec fn floor_log2(n: nat) -> nat
    decreases n,
{
    if n <= 1 { 0 } else { 1 + floor_log2(n / 2) }
}

/// `floor(log2(n))` (0 for `n <= 1`).
pub fn floor_log2_exec(n: u128) -> (r: u32)
    ensures
        r == floor_log2(n as nat),
{
    proof {
        vstd::arithmetic::power2::lemma2_to64();
        vstd::arithmetic::power2::lemma_pow2_adds(64, 64);
        lemma_floor_log2_below(n as nat, 128);
    }
    let mut m: u128 = n;
    let mut acc: u32 = 0;
    while m > 1
        invariant
            acc + floor_log2(m as nat) == floor_log2(n as nat),
            floor_log2(n as nat) <= 128,
        decreases m,
    {
        m = m / 2;
        acc = acc + 1;
    }
    acc
}

/// `floor(log2(n)) <= b` when `n < 2^b`.
proof fn lemma_floor_log2_below(n: nat, b: nat)
    requires
        n < vstd::arithmetic::power2::pow2(b),
    ensures
        floor_log2(n) <= b,
    decreases n,
{
    if n > 1 {
        if b == 0 {
            vstd::arithmetic::power2::lemma2_to64();
        } else {
            vstd::arithmetic::power2::lemma_pow2_unfold(b);
            lemma_floor_log2_below(n / 2, (b - 1) as nat);
        }
    }
}

/// `x` clamped to `[1, 8]`.
pub open spec fn clamp_depth(x: int) -> int {
    if x < 1 { 1 } else if x > K_MAX_NAMED { K_MAX_NAMED as int } else { x }
}

/// The depth for the proportion rule with target count `target`: the
/// smallest `k >= 1` with `2^(k-1) >= target`, at most 8.
pub open spec fn spec_proportion_k(target: int) -> int {
    if target <= 1 { 1 }
    else if target <= 2 { 2 }
    else if target <= 4 { 3 }
    else if target <= 8 { 4 }
    else if target <= 16 { 5 }
    else if target <= 32 { 6 }
    else if target <= 64 { 7 }
    else { 8 }
}

/// The number of depths of a group of `n` values: 0 for an empty group;
/// otherwise, clamped to `[1, 8]`, `floor(log2 n) - 3` (Tukey),
/// `floor(log2 n)` (full), `floor(log2(n / 3.32))` (trustworthy), or the
/// proportion depth for `target`, the caller's `max(ceil(p * n), 1)`.
pub open spec fn spec_k_for_depth(kind: KDepthKind, n: nat, target: int) -> int {
    if n == 0 {
        0
    } else {
        match kind {
            KDepthKind::Tukey => clamp_depth(floor_log2(n) - 3),
            KDepthKind::Full => clamp_depth(floor_log2(n) as int),
            KDepthKind::Trustworthy => clamp_depth(floor_log2((100 * n) / 332) as int),
            KDepthKind::Proportion => spec_proportion_k(target),
        }
    }
}

/// The proportion depth: walk `k` up from 1 while `2^(k-1)` is below the
/// target, stopping past 8.
fn proportion_k(target: i64) -> (r: usize)
    ensures
        r == spec_proportion_k(target as int),
{
    proof {
        vstd::arithmetic::power2::lemma2_to64();
    }
    let mut k: usize = 1;
    let mut p: i64 = 1;
    while p < target
        invariant_except_break
            1 <= k <= K_MAX_NAMED,
            p == vstd::arithmetic::power2::pow2((k - 1) as nat),
            k == 1 || target > vstd::arithmetic::power2::pow2((k - 2) as nat),
        ensures
            1 <= k <= K_MAX_NAMED + 1,
            k <= K_MAX_NAMED ==> p >= target && p == vstd::arithmetic::power2::pow2((k - 1) as nat)
                && (k == 1 || target > vstd::arithmetic::power2::pow2((k - 2) as nat)),
            k > K_MAX_NAMED ==> target > 128,
        decreases K_MAX_NAMED + 1 - k,
    {
        proof {
            vstd::arithmetic::power2::lemma2_to64();
        }
        k = k + 1;
        if k > K_MAX_NAMED {
            break;
        }
        p = p * 2;
    }
    proof {
        vstd::arithmetic::power2::lemma2_to64();
    }
    if k > K_MAX_NAMED { K_MAX_NAMED } else { k }
}

/// The number of depths of a group of `n` values (see [`spec_k_for_depth`];
/// `target` is read by the proportion rule only).
pub fn k_for_depth(kind: KDepthKind, n: usize, target: i64) -> (r: usize)
    ensures
        r == spec_k_for_depth(kind, n as nat, target as int),
        r <= K_MAX_NAMED,
{
    if n == 0 {
        return 0;
    }
    let raw: u32 = match kind {
        KDepthKind::Tukey => floor_log2_exec(n as u128),
        KDepthKind::Full => floor_log2_exec(n as u128),
        KDepthKind::Trustworthy => floor_log2_exec((100 * (n as u128)) / 332),
        KDepthKind::Proportion => {
            return proportion_k(target);
        },
    };
    let k: u32 = match kind {
        KDepthKind::Tukey => if raw <= 3 { 1 } else if raw - 3 > 8 { 8 } else { raw - 3 },
        _ => if raw < 1 { 1 } else if raw > 8 { 8 } else { raw },
    };
    k as usize
}

/// The level label of `depth`: M (median), F (fourths), E, D, C, B, A, Z.
pub open spec fn spec_level(depth: int) -> Seq<char> {
    if depth == 1 { "M"@ }
    else if depth == 2 { "F"@ }
    else if depth == 3 { "E"@ }
    else if depth == 4 { "D"@ }
    else if depth == 5 { "C"@ }
    else if depth == 6 { "B"@ }
    else if depth == 7 { "A"@ }
    else { "Z"@ }
}

/// The level label of `depth`.
pub fn level_label(depth: usize) -> (r: String)
    requires
        1 <= depth <= K_MAX_NAMED,
    ensures
        r@ == spec_level(depth as int),
{
    let s: &str = if depth == 1 { "M" }
        else if depth == 2 { "F" }
        else if depth == 3 { "E" }
        else if depth == 4 { "D" }
        else if depth == 5 { "C" }
        else if depth == 6 { "B" }
        else if depth == 7 { "A" }
        else { "Z" };
    String::from_str(s)
}


/// Why a letter-value request cannot run on a table.
#[derive(Debug, Clone, PartialEq, Eq)]
pub enum LetterValueError {
    /// The value field names no column.
    ValueNotFound(String),
    /// The value column is not `Float64`.
    ValueNotFloat64(String),
    /// The group field names no column.
    GroupNotFound(String),
    /// The group column is not `Utf8`; its dtype.
    GroupNotUtf8(String, DType),
}

/// Check the value and group fields of a letter-value request, in that
/// order: the value column must be `Float64`, the group column `Utf8`.
/// Gives their indices.
pub fn plan_letter_value(batch: &Table, value: &String, group: &Option<String>) -> (r: Result<(usize, Option<usize>), LetterValueError>)
    requires
        batch.wf(),
    ensures
        match r {
            Ok((vi, gi)) => spec_index_of(batch.names@, value@) == Some(vi as int)
                && spec_col_dtype(batch.columns@[vi as int]) == DType::Float64
                && match *group {
                    None => gi is None,
                    Some(g) => spec_index_of(batch.names@, g@) == Some(gi->0 as int) && gi is Some
                        && spec_col_dtype(batch.columns@[gi->0 as int]) == DType::Utf8,
                },
            Err(LetterValueError::ValueNotFound(f)) => spec_index_of(batch.names@, value@) is None && f@ == value@,
            Err(LetterValueError::ValueNotFloat64(f)) => f@ == value@ && spec_index_of(batch.names@, value@) is Some
                && spec_col_dtype(batch.columns@[spec_index_of(batch.names@, value@)->0]) != DType::Float64,
            Err(LetterValueError::GroupNotFound(f)) => spec_index_of(batch.names@, value@) is Some
                && spec_col_dtype(batch.columns@[spec_index_of(batch.names@, value@)->0]) == DType::Float64
                && group is Some && f@ == group->0@ && spec_index_of(batch.names@, f@) is None,
            Err(LetterValueError::GroupNotUtf8(f, dt)) => spec_index_of(batch.names@, value@) is Some
                && spec_col_dtype(batch.columns@[spec_index_of(batch.names@, value@)->0]) == DType::Float64
                && group is Some && f@ == group->0@ && spec_index_of(batch.names@, f@) is Some
                && dt == spec_col_dtype(batch.columns@[spec_index_of(batch.names@, f@)->0]) && dt != DType::Utf8,
        },
{
    let vi = match index_of(&batch.names, value) {
        None => {
            return Err(LetterValueError::ValueNotFound(value.clone()));
        },
        Some(k) => k,
    };
    if batch.columns[vi].dtype() != DType::Float64 {
        return Err(LetterValueError::ValueNotFloat64(value.clone()));
    }
    let gi = match group {
        None => None,
        Some(g) => {
            match index_of(&batch.names, g) {
                None => {
                    return Err(LetterValueError::GroupNotFound(g.clone()));
                },
                Some(k) => {
                    let dt = batch.columns[k].dtype();
                    if dt != DType::Utf8 {
                        return Err(LetterValueError::GroupNotUtf8(g.clone(), dt));
                    }
                    Some(k)
                },
            }
        },
    };
    Ok((vi, gi))
}

/// Whether row `r` of a float column takes part: its value is neither null
/// nor NaN.
pub open spec fn spec_kept(v: Seq<Option<u64>>, r: int) -> bool {
    match v[r] {
        Some(b) => !spec_is_nan_bits(b),
        None => false,
    }
}

/// The group of row `r`: `Null` without a group column or for a null group
/// cell, the cell's string otherwise.
pub open spec fn spec_lv_group(g: Option<Seq<Option<String>>>, r: int) -> KeyView {
    match g {
        None => KeyView::Null,
        Some(cells) => match cells[r] {
            Some(s) => KeyView::Str(s@),
            None => KeyView::Null,
        },
    }
}

/// The key of every row: its group, for a row that takes part.
pub open spec fn spec_lv_row_keys(v: Seq<Option<u64>>, g: Option<Seq<Option<String>>>) -> Seq<Option<Seq<KeyView>>> {
    Seq::new(v.len(), |r: int| if spec_kept(v, r) { Some(seq![spec_lv_group(g, r)]) } else { None })
}

/// The cells of a group column, if any.
pub open spec fn opt_cells(g: Option<&Vec<Option<String>>>) -> Option<Seq<Option<String>>> {
    match g {
        Some(c) => Some(c@),
        None => None,
    }
}

/// Group the rows whose value is neither null nor NaN by their group (a
/// missing group column or a null group cell is the null group), the groups
/// in increasing order: the null group first, then the strings in
/// lexicographic order. Each group lists its rows in ascending order.
pub fn letter_value_groups(values: &Vec<Option<u64>>, group: Option<&Vec<Option<String>>>) -> (r: (Vec<Vec<KeyValue>>, Vec<Vec<usize>>))
    requires
        match group { Some(c) => c.len() == values.len(), None => true },
    ensures
        is_sorted_partition(spec_lv_row_keys(values@, opt_cells(group)), order_view(r.0@), rows_view(r.1@)),
{
    let mut row_keys: Vec<Option<Vec<KeyValue>>> = Vec::with_capacity(values.len());
    let mut i: usize = 0;
    while i < values.len()
        invariant
            match group { Some(c) => c.len() == values.len(), None => true },
            0 <= i <= values.len(),
            row_keys.len() == i,
            forall|q: int| 0 <= q < i ==> okv(#[trigger] row_keys@[q]) == spec_lv_row_keys(values@, opt_cells(group))[q],
        decreases values.len() - i,
    {
        let kept = match values[i] {
            Some(b) => !is_nan_bits(b),
            None => false,
        };
        if kept {
            let key: KeyValue = match group {
                None => KeyValue::Null,
                Some(c) => match &c[i] {
                    Some(s) => KeyValue::Str(s.clone()),
                    None => KeyValue::Null,
                },
            };
            let mut k: Vec<KeyValue> = Vec::new();
            k.push(key);
            proof {
                assert(crate::group_key::kv(k@) =~= seq![spec_lv_group(opt_cells(group), i as int)]);
            }
            row_keys.push(Some(k));
        } else {
            row_keys.push(None);
        }
        i = i + 1;
    }
    assert(row_keys_view(row_keys@) =~= spec_lv_row_keys(values@, opt_cells(group)));
    partition_sorted(&row_keys)
}

/// The output rows of a letter-value summary, as (group, depth) pairs:
/// group after group, depths 1 to the group's number of depths.
pub open spec fn spec_layout(kind: KDepthKind, sizes: Seq<usize>, targets: Seq<i64>) -> Seq<(usize, usize)>
    decreases sizes.len(),
{
    if sizes.len() == 0 {
        Seq::empty()
    } else {
        let g = sizes.len() - 1;
        spec_layout(kind, sizes.drop_last(), targets.drop_last())
            + Seq::new(spec_k_for_depth(kind, sizes[g] as nat, targets[g] as int) as nat, |d: int| (g as usize, (d + 1) as usize))
    }
}

/// Lay out the output rows for groups of `sizes` values (with `targets`
/// read by the proportion rule): the pairs (group, depth).
pub fn depth_layout(kind: KDepthKind, sizes: &Vec<usize>, targets: &Vec<i64>) -> (r: Vec<(usize, usize)>)
    requires
        sizes.len() == targets.len(),
        sizes.len() * K_MAX_NAMED <= usize::MAX,
    ensures
        r@ == spec_layout(kind, sizes@, targets@),
        r.len() <= sizes.len() * K_MAX_NAMED,
{
    let mut out: Vec<(usize, usize)> = Vec::new();
    let mut g: usize = 0;
    while g < sizes.len()
        invariant
            sizes.len() == targets.len(),
            sizes.len() * K_MAX_NAMED <= usize::MAX,
            0 <= g <= sizes.len(),
            out@ == spec_layout(kind, sizes@.take(g as int), targets@.take(g as int)),
            out.len() <= g * K_MAX_NAMED,
        decreases sizes.len() - g,
    {
        let k = k_for_depth(kind, sizes[g], targets[g]);
        let ghost before = out@;
        let mut d: usize = 1;
        while d <= k
            invariant
                1 <= d <= k + 1,
                k <= K_MAX_NAMED,
                g < sizes.len(),
                out@ == before + Seq::new((d - 1) as nat, |e: int| (g as usize, (e + 1) as usize)),
            decreases k + 1 - d,
        {
            out.push((g, d));
            assert(out@ =~= before + Seq::new(d as nat, |e: int| (g as usize, (e + 1) as usize)));
            d = d + 1;
        }
        assert(sizes@.take(g + 1).drop_last() =~= sizes@.take(g as int));
        assert(targets@.take(g + 1).drop_last() =~= targets@.take(g as int));
        g = g + 1;
    }
    assert(sizes@.take(g as int) =~= sizes@);
    assert(targets@.take(g as int) =~= targets@);
    out
}

/// The positions of the layout rows at depth `k`, in order.
pub fn rows_at_depth(layout: &Vec<(usize, usize)>, k: usize) -> (r: Vec<usize>)
    ensures
        forall|j: int| 0 <= j < r.len() ==> (#[trigger] r@[j] as int) < layout.len() && layout@[r@[j] as int].1 == k,
        forall|i: int, j: int| 0 <= i < j < r.len() ==> #[trigger] r@[i] < #[trigger] r@[j],
        forall|p: int| 0 <= p < layout.len() && (#[trigger] layout@[p]).1 == k ==> r@.contains(p as usize),
{
    let mut out: Vec<usize> = Vec::new();
    let mut p: usize = 0;
    while p < layout.len()
        invariant
            0 <= p <= layout.len(),
            forall|j: int| 0 <= j < out.len() ==> (#[trigger] out@[j] as int) < p && layout@[out@[j] as int].1 == k,
            forall|i: int, j: int| 0 <= i < j < out.len() ==> #[trigger] out@[i] < #[trigger] out@[j],
            forall|q: int| 0 <= q < p && (#[trigger] layout@[q]).1 == k ==> out@.contains(q as usize),
        decreases layout.len() - p,
    {
        if layout[p].1 == k {
            let ghost before = out@;
            out.push(p);
            proof {
                assert forall|q: int| 0 <= q < p + 1 && (#[trigger] layout@[q]).1 == k implies out@.contains(q as usize) by {
                    if q < p {
                        assert(before.contains(q as usize));
                        let w = choose|w: int| 0 <= w < before.len() && before[w] == q as usize;
                        assert(out@[w] == q as usize);
                    } else {
                        assert(out@[before.len() as int] == q as usize);
                    }
                }
            }
        }
        p = p + 1;
    }
    out
}

/// The position of each group's outermost row: among the rows of the group,
/// one of greatest depth, the last such; `None` for a group without rows.
pub fn deepest_rows(layout: &Vec<(usize, usize)>, n_groups: usize) -> (r: Vec<Option<usize>>)
    requires
        forall|p: int| 0 <= p < layout.len() ==> (#[trigger] layout@[p]).0 < n_groups,
    ensures
        r.len() == n_groups,
        forall|g: int| 0 <= g < n_groups ==> match #[trigger] r@[g] {
            None => forall|p: int| 0 <= p < layout.len() ==> (#[trigger] layout@[p]).0 != g,
            Some(b) => (b as int) < layout.len() && layout@[b as int].0 == g
                && forall|p: int| 0 <= p < layout.len() && (#[trigger] layout@[p]).0 == g ==>
                    layout@[p].1 < layout@[b as int].1 || (layout@[p].1 == layout@[b as int].1 && p <= b),
        },
{
    let mut best: Vec<Option<usize>> = Vec::with_capacity(n_groups);
    let mut g: usize = 0;
    while g < n_groups
        invariant
            0 <= g <= n_groups,
            best.len() == g,
            forall|h: int| 0 <= h < g ==> #[trigger] best@[h] is None,
        decreases n_groups - g,
    {
        best.push(None);
        g = g + 1;
    }
    let mut p: usize = 0;
    while p < layout.len()
        invariant
            forall|q: int| 0 <= q < layout.len() ==> (#[trigger] layout@[q]).0 < n_groups,
            0 <= p <= layout.len(),
            best.len() == n_groups,
            forall|h: int| 0 <= h < n_groups ==> match #[trigger] best@[h] {
                None => forall|q: int| 0 <= q < p ==> (#[trigger] layout@[q]).0 != h,
                Some(b) => (b as int) < p && layout@[b as int].0 == h
                    && forall|q: int| 0 <= q < p && (#[trigger] layout@[q]).0 == h ==>
                        layout@[q].1 < layout@[b as int].1 || (layout@[q].1 == layout@[b as int].1 && q <= b),
            },
        decreases layout.len() - p,
    {
        let (h, d) = layout[p];
        let replace = match best[h] {
            None => true,
            Some(b) => d >= layout[b].1,
        };
        if replace {
            best.set(h, Some(p));
        }
        p = p + 1;
    }
    best
}

/// The name of the outliers output: `outliers`, or `<name>_outliers`.
pub open spec fn spec_outliers_name(name: Option<String>) -> Seq<char> {
    match name {
        Some(s) => s@ + "_outliers"@,
        None => "outliers"@,
    }
}

/// The name of the outliers output of a letter-value step named `name`.
pub fn outliers_output_name(name: &Option<String>) -> (r: String)
    ensures
        r@ == spec_outliers_name(*name),
{
    match name {
        Some(s) => {
            let mut out = s.clone();
            out.append("_outliers");
            out
        },
        None => String::from_str("outliers"),
    }
}

/// The decimal digit of `k` in `1..=8`.
pub open spec fn spec_digit(k: int) -> Seq<char> {
    if k == 1 { "1"@ }
    else if k == 2 { "2"@ }
    else if k == 3 { "3"@ }
    else if k == 4 { "4"@ }
    else if k == 5 { "5"@ }
    else if k == 6 { "6"@ }
    else if k == 7 { "7"@ }
    else { "8"@ }
}

/// The name of the depth-`k` output: `depth_<k>`, or `<name>_depth_<k>`.
pub open spec fn spec_depth_name(name: Option<String>, k: int) -> Seq<char> {
    match name {
        Some(s) => s@ + "_depth_"@ + spec_digit(k),
        None => "depth_"@ + spec_digit(k),
    }
}

/// The name of the depth-`k` output of a letter-value step named `name`.
pub fn depth_output_name(name: &Option<String>, k: usize) -> (r: String)
    requires
        1 <= k <= K_MAX_NAMED,
    ensures
        r@ == spec_depth_name(*name, k as int),
{
    let digit: &str = if k == 1 { "1" }
        else if k == 2 { "2" }
        else if k == 3 { "3" }
        else if k == 4 { "4" }
        else if k == 5 { "5" }
        else if k == 6 { "6" }
        else if k == 7 { "7" }
        else { "8" };
    let mut out = match name {
        Some(s) => {
            let mut o = s.clone();
            o.append("_depth_");
            o
        },
        None => String::from_str("depth_"),
    };
    out.append(digit);
    out
}

} // verus!
