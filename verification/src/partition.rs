//! Partitioning rows by key: first-appearance groups (nulls skipped) and
//! key-ordered groups, and the checks every partition satisfies.

use vstd::prelude::*;
use crate::dtype::{DType, is_groupby_supported_dtype};
use crate::column::{ColumnData, Table, index_of, spec_index_of, spec_col_dtype, spec_col_len};
use crate::group_key::{groupby_key_at, spec_key_at, KeyValue, KeyView, kv, key_vec_eq, key_vec_less, clone_key_vec, keys_lt, lemma_keys_lt_facts};

verus! {

/// Views of optional row keys (`None`: the row takes part in no group).
pub open spec fn okv(o: Option<Vec<KeyValue>>) -> Option<Seq<KeyView>> {
    match o {
        Some(v) => Some(kv(v@)),
        None => None,
    }
}

/// Views of a list of row keys.
pub open spec fn row_keys_view(rk: Seq<Option<Vec<KeyValue>>>) -> Seq<Option<Seq<KeyView>>> {
    rk.map_values(|o: Option<Vec<KeyValue>>| okv(o))
}

/// Views of a list of group keys.
pub open spec fn order_view(o: Seq<Vec<KeyValue>>) -> Seq<Seq<KeyView>> {
    o.map_values(|v: Vec<KeyValue>| kv(v@))
}

/// Views of a list of row-index lists.
pub open spec fn rows_view(r: Seq<Vec<usize>>) -> Seq<Seq<usize>> {
    r.map_values(|v: Vec<usize>| v@)
}

/// `rows` lists, in ascending order, exactly the positions below `n` whose key
/// is `key`.
pub open spec fn exact_rows(keys: Seq<Option<Seq<KeyView>>>, n: int, key: Seq<KeyView>, rows: Seq<usize>) -> bool {
    &&& forall|j: int| 0 <= j < rows.len() ==> (#[trigger] rows[j] as int) < n && keys[rows[j] as int] == Some(key)
    &&& forall|j: int, k: int| 0 <= j < k < rows.len() ==> #[trigger] rows[j] < #[trigger] rows[k]
    &&& forall|r: int| 0 <= r < n && #[trigger] keys[r] == Some(key) ==> rows.contains(r as usize)
}

/// Group keys are pairwise distinct.
pub open spec fn distinct_keys(order: Seq<Seq<KeyView>>) -> bool {
    forall|g: int, h: int| 0 <= g < order.len() && 0 <= h < order.len() && g != h ==> #[trigger] order[g] != #[trigger] order[h]
}

/// Every keyed position below `n` has its key among the groups.
pub open spec fn covers(keys: Seq<Option<Seq<KeyView>>>, n: int, order: Seq<Seq<KeyView>>) -> bool {
    forall|r: int| 0 <= r < n && (#[trigger] keys[r]) is Some ==> exists|g: int| 0 <= g < order.len() && order[g] == keys[r]->0
}

/// A partition of the keyed positions below `n` into groups: one group per
/// distinct key, each group holding exactly the ascending positions of its key.
pub open spec fn is_partition(keys: Seq<Option<Seq<KeyView>>>, n: int, order: Seq<Seq<KeyView>>, rows: Seq<Seq<usize>>) -> bool {
    &&& order.len() == rows.len()
    &&& forall|g: int| 0 <= g < rows.len() ==> (#[trigger] rows[g]).len() > 0 && exact_rows(keys, n, order[g], rows[g])
    &&& distinct_keys(order)
    &&& covers(keys, n, order)
}

/// In a partition every keyed position lies in exactly one group, the group
/// of its key, and a position without a key lies in none.
pub proof fn lemma_partition_row_in_one_group(keys: Seq<Option<Seq<KeyView>>>, n: int, order: Seq<Seq<KeyView>>, rows: Seq<Seq<usize>>, r: int)
    requires
        is_partition(keys, n, order, rows),
        0 <= r < n,
        r <= usize::MAX,
    ensures
        keys[r] is Some ==> exists|g: int| 0 <= g < order.len() && order[g] == keys[r]->0 && rows[g].contains(r as usize),
        forall|g: int| 0 <= g < rows.len() && (#[trigger] rows[g]).contains(r as usize) ==> keys[r] == Some(order[g]),
        forall|g: int, h: int| 0 <= g < rows.len() && 0 <= h < rows.len()
            && (#[trigger] rows[g]).contains(r as usize) && (#[trigger] rows[h]).contains(r as usize) ==> g == h,
{
    assert forall|g: int| 0 <= g < rows.len() && (#[trigger] rows[g]).contains(r as usize) implies keys[r] == Some(order[g]) by {
        let j = choose|j: int| 0 <= j < rows[g].len() && rows[g][j] == r as usize;
        assert(exact_rows(keys, n, order[g], rows[g]));
        assert(keys[rows[g][j] as int] == Some(order[g]));
    }
    if keys[r] is Some {
        assert(covers(keys, n, order));
        let g = choose|g: int| 0 <= g < order.len() && order[g] == keys[r]->0;
        assert(exact_rows(keys, n, order[g], rows[g]));
        assert(keys[r] == Some(order[g]));
    }
    assert forall|g: int, h: int| 0 <= g < rows.len() && 0 <= h < rows.len()
        && (#[trigger] rows[g]).contains(r as usize) && (#[trigger] rows[h]).contains(r as usize) implies g == h by {
        assert(keys[r] == Some(order[g]));
        assert(keys[r] == Some(order[h]));
        assert(distinct_keys(order));
        if g != h {
            assert(order[g] != order[h]);
        }
    }
}

/// A partition whose groups come in order of first appearance: each group's
/// first position is below that of every later group.
pub open spec fn is_first_appearance_partition(keys: Seq<Option<Seq<KeyView>>>, order: Seq<Seq<KeyView>>, rows: Seq<Seq<usize>>) -> bool {
    &&& is_partition(keys, keys.len() as int, order, rows)
    &&& forall|g: int, h: int| 0 <= g < h < rows.len() ==> #[trigger] rows[g][0] < #[trigger] rows[h][0]
}

/// Index of the group whose key equals `key`.
pub fn find_group(order: &Vec<Vec<KeyValue>>, key: &Vec<KeyValue>) -> (r: Option<usize>)
    ensures
        match r {
            Some(g) => g < order.len() && order_view(order@)[g as int] == kv(key@),
            None => forall|g: int| 0 <= g < order.len() ==> #[trigger] order_view(order@)[g] != kv(key@),
        },
{
    let mut g: usize = 0;
    while g < order.len()
        invariant
            0 <= g <= order.len(),
            forall|h: int| 0 <= h < g ==> #[trigger] order_view(order@)[h] != kv(key@),
        decreases order.len() - g,
    {
        if key_vec_eq(&order[g], key) {
            return Some(g);
        }
        g = g + 1;
    }
    None
}

/// Partition positions by key in order of first appearance; positions whose
/// key is `None` are skipped. Returns the distinct keys and, for each, its
/// ascending positions.
pub fn partition_first_appearance(row_keys: &Vec<Option<Vec<KeyValue>>>) -> (r: (Vec<Vec<KeyValue>>, Vec<Vec<usize>>))
    ensures
        is_first_appearance_partition(row_keys_view(row_keys@), order_view(r.0@), rows_view(r.1@)),
{
    let ghost keys = row_keys_view(row_keys@);
    let mut order: Vec<Vec<KeyValue>> = Vec::new();
    let mut rows: Vec<Vec<usize>> = Vec::new();
    let mut i: usize = 0;
    while i < row_keys.len()
        invariant
            keys == row_keys_view(row_keys@),
            keys.len() == row_keys.len(),
            0 <= i <= row_keys.len(),
            is_partition(keys, i as int, order_view(order@), rows_view(rows@)),
            forall|g: int, h: int| 0 <= g < h < rows.len() ==> #[trigger] rows_view(rows@)[g][0] < #[trigger] rows_view(rows@)[h][0],
        decreases row_keys.len() - i,
    {
        let ghost old_order = order_view(order@);
        let ghost old_rows = rows_view(rows@);
        assert(keys[i as int] == okv(row_keys@[i as int]));
        match &row_keys[i] {
            None => {
                assert forall|g: int| 0 <= g < rows.len() implies exact_rows(keys, i + 1, old_order[g], #[trigger] old_rows[g]) by {
                    assert(exact_rows(keys, i as int, old_order[g], old_rows[g]));
                }
            },
            Some(k) => {
                match find_group(&order, k) {
                    Some(g) => {
                        let mut grp = Vec::new();
                        std::mem::swap(&mut grp, &mut rows[g]);
                        grp.push(i);
                        rows[g] = grp;
                        proof {
                            let nr = rows_view(rows@);
                            assert(nr =~= old_rows.update(g as int, old_rows[g as int].push(i)));
                            assert forall|h: int| 0 <= h < rows.len() implies (#[trigger] nr[h]).len() > 0 && exact_rows(keys, i + 1, old_order[h], nr[h]) by {
                                assert(exact_rows(keys, i as int, old_order[h], old_rows[h]));
                                if h == g {
                                    assert forall|r: int| 0 <= r < i + 1 && #[trigger] keys[r] == Some(old_order[h]) implies nr[h].contains(r as usize) by {
                                        if r < i {
                                            let j = choose|j: int| 0 <= j < old_rows[h].len() && old_rows[h][j] == r as usize;
                                            assert(nr[h][j] == r as usize);
                                        } else {
                                            assert(nr[h][nr[h].len() - 1] == r as usize);
                                        }
                                    }
                                } else {
                                    assert(old_order[h] != old_order[g as int]);
                                }
                            }
                            assert forall|r: int| 0 <= r < i + 1 && (#[trigger] keys[r]) is Some implies exists|h: int| 0 <= h < old_order.len() && old_order[h] == keys[r]->0 by {
                                if r == i {
                                    assert(old_order[g as int] == keys[r]->0);
                                }
                            }
                        }
                    },
                    None => {
                        let nk = clone_key_vec(k);
                        order.push(nk);
                        let mut grp = Vec::new();
                        grp.push(i);
                        rows.push(grp);
                        proof {
                            let no = order_view(order@);
                            let nr = rows_view(rows@);
                            let ng = old_rows.len() as int;
                            assert(no =~= old_order.push(kv(k@)));
                            assert(nr =~= old_rows.push(seq![i]));
                            assert forall|h: int| 0 <= h < rows.len() implies (#[trigger] nr[h]).len() > 0 && exact_rows(keys, i + 1, no[h], nr[h]) by {
                                if h < ng {
                                    assert(exact_rows(keys, i as int, old_order[h], old_rows[h]));
                                    assert(old_order[h] != kv(k@));
                                } else {
                                    assert forall|r: int| 0 <= r < i + 1 && #[trigger] keys[r] == Some(no[h]) implies nr[h].contains(r as usize) by {
                                        if r < i {
                                            let g2 = choose|g2: int| 0 <= g2 < old_order.len() && old_order[g2] == keys[r]->0;
                                            assert(old_order[g2] == kv(k@));
                                        } else {
                                            assert(nr[h][0] == r as usize);
                                        }
                                    }
                                }
                            }
                            assert forall|g1: int, h: int| 0 <= g1 < h < rows.len() implies #[trigger] nr[g1][0] < #[trigger] nr[h][0] by {
                                if h == ng {
                                    assert(exact_rows(keys, i as int, old_order[g1], old_rows[g1]));
                                    assert(old_rows[g1].len() > 0);
                                    assert((old_rows[g1][0] as int) < i);
                                }
                            }
                            assert forall|r: int| 0 <= r < i + 1 && (#[trigger] keys[r]) is Some implies exists|h: int| 0 <= h < no.len() && no[h] == keys[r]->0 by {
                                if r == i {
                                    assert(no[ng] == keys[r]->0);
                                } else {
                                    let g2 = choose|g2: int| 0 <= g2 < old_order.len() && old_order[g2] == keys[r]->0;
                                    assert(no[g2] == keys[r]->0);
                                }
                            }
                        }
                    },
                }
            },
        }
        i = i + 1;
    }
    (order, rows)
}

/// Group keys in strictly increasing key order.
pub open spec fn sorted_keys(order: Seq<Seq<KeyView>>) -> bool {
    forall|g: int, h: int| 0 <= g < h < order.len() ==> keys_lt(#[trigger] order[g], #[trigger] order[h])
}

/// A partition whose groups come in increasing key order.
pub open spec fn is_sorted_partition(keys: Seq<Option<Seq<KeyView>>>, order: Seq<Seq<KeyView>>, rows: Seq<Seq<usize>>) -> bool {
    &&& is_partition(keys, keys.len() as int, order, rows)
    &&& sorted_keys(order)
}

/// First position `p` whose group key does not sort before `key`, and whether
/// the key there equals `key`.
pub fn find_sorted_position(order: &Vec<Vec<KeyValue>>, key: &Vec<KeyValue>) -> (r: (usize, bool))
    ensures
        r.0 <= order.len(),
        forall|q: int| 0 <= q < r.0 ==> keys_lt(#[trigger] order_view(order@)[q], kv(key@)),
        r.0 < order.len() ==> !keys_lt(order_view(order@)[r.0 as int], kv(key@)),
        r.1 == (r.0 < order.len() && order_view(order@)[r.0 as int] == kv(key@)),
{
    let mut p: usize = 0;
    while p < order.len()
        invariant
            0 <= p <= order.len(),
            forall|q: int| 0 <= q < p ==> keys_lt(#[trigger] order_view(order@)[q], kv(key@)),
        decreases order.len() - p,
    {
        if !key_vec_less(&order[p], key) {
            let found = key_vec_eq(&order[p], key);
            return (p, found);
        }
        p = p + 1;
    }
    (p, false)
}

/// Partition positions by key with the groups in increasing key order (the
/// iteration order of an ordered map keyed by the key tuples); positions
/// whose key is `None` are skipped.
pub fn partition_sorted(row_keys: &Vec<Option<Vec<KeyValue>>>) -> (r: (Vec<Vec<KeyValue>>, Vec<Vec<usize>>))
    ensures
        is_sorted_partition(row_keys_view(row_keys@), order_view(r.0@), rows_view(r.1@)),
{
    let ghost keys = row_keys_view(row_keys@);
    let mut order: Vec<Vec<KeyValue>> = Vec::new();
    let mut rows: Vec<Vec<usize>> = Vec::new();
    let mut i: usize = 0;
    while i < row_keys.len()
        invariant
            keys == row_keys_view(row_keys@),
            keys.len() == row_keys.len(),
            0 <= i <= row_keys.len(),
            is_partition(keys, i as int, order_view(order@), rows_view(rows@)),
            sorted_keys(order_view(order@)),
        decreases row_keys.len() - i,
    {
        let ghost old_order = order_view(order@);
        let ghost old_rows = rows_view(rows@);
        assert(keys[i as int] == okv(row_keys@[i as int]));
        match &row_keys[i] {
            None => {
                assert forall|g: int| 0 <= g < rows.len() implies exact_rows(keys, i + 1, old_order[g], #[trigger] old_rows[g]) by {
                    assert(exact_rows(keys, i as int, old_order[g], old_rows[g]));
                }
            },
            Some(k) => {
                let (p, found) = find_sorted_position(&order, k);
                if found {
                    let g = p;
                    let mut grp = Vec::new();
                    std::mem::swap(&mut grp, &mut rows[g]);
                    grp.push(i);
                    rows[g] = grp;
                    proof {
                        let nr = rows_view(rows@);
                        assert(nr =~= old_rows.update(g as int, old_rows[g as int].push(i)));
                        assert forall|h: int| 0 <= h < rows.len() implies (#[trigger] nr[h]).len() > 0 && exact_rows(keys, i + 1, old_order[h], nr[h]) by {
                            assert(exact_rows(keys, i as int, old_order[h], old_rows[h]));
                            if h == g {
                                assert forall|r: int| 0 <= r < i + 1 && #[trigger] keys[r] == Some(old_order[h]) implies nr[h].contains(r as usize) by {
                                    if r < i {
                                        let j = choose|j: int| 0 <= j < old_rows[h].len() && old_rows[h][j] == r as usize;
                                        assert(nr[h][j] == r as usize);
                                    } else {
                                        assert(nr[h][nr[h].len() - 1] == r as usize);
                                    }
                                }
                            } else {
                                assert(old_order[h] != old_order[g as int]);
                            }
                        }
                        assert forall|r: int| 0 <= r < i + 1 && (#[trigger] keys[r]) is Some implies exists|h: int| 0 <= h < old_order.len() && old_order[h] == keys[r]->0 by {
                            if r == i {
                                assert(old_order[g as int] == keys[r]->0);
                            }
                        }
                    }
                } else {
                    let nk = clone_key_vec(k);
                    order.insert(p, nk);
                    let mut grp = Vec::new();
                    grp.push(i);
                    rows.insert(p, grp);
                    proof {
                        let key = kv(k@);
                        let no = order_view(order@);
                        let nr = rows_view(rows@);
                        let pp = p as int;
                        assert(no =~= old_order.insert(pp, key));
                        assert(nr =~= old_rows.insert(pp, seq![i]));
                        // the new key sorts before every key from position p on
                        assert forall|q: int| pp <= q < old_order.len() implies keys_lt(key, #[trigger] old_order[q]) by {
                            lemma_keys_lt_facts(key, old_order[pp], old_order[q]);
                            lemma_keys_lt_facts(old_order[pp], key, key);
                        }
                        assert forall|q: int| 0 <= q < old_order.len() implies #[trigger] old_order[q] != key by {
                            lemma_keys_lt_facts(key, key, key);
                        }
                        assert forall|g1: int, h: int| 0 <= g1 < h < no.len() implies keys_lt(#[trigger] no[g1], #[trigger] no[h]) by {
                            if h < pp {
                            } else if h == pp {
                            } else if g1 < pp {
                                lemma_keys_lt_facts(no[g1], key, no[h]);
                            } else if g1 == pp {
                            } else {
                            }
                        }
                        assert forall|g1: int, h: int| 0 <= g1 < no.len() && 0 <= h < no.len() && g1 != h implies #[trigger] no[g1] != #[trigger] no[h] by {
                            if g1 != pp && h != pp {
                                let a = if g1 < pp { g1 } else { g1 - 1 };
                                let b = if h < pp { h } else { h - 1 };
                                assert(old_order[a] != old_order[b]);
                            }
                        }
                        assert forall|h: int| 0 <= h < rows.len() implies (#[trigger] nr[h]).len() > 0 && exact_rows(keys, i + 1, no[h], nr[h]) by {
                            if h != pp {
                                let a = if h < pp { h } else { h - 1 };
                                assert(nr[h] == old_rows[a] && no[h] == old_order[a]);
                                assert(exact_rows(keys, i as int, old_order[a], old_rows[a]));
                                assert(old_order[a] != key);
                            } else {
                                assert forall|r: int| 0 <= r < i + 1 && #[trigger] keys[r] == Some(no[h]) implies nr[h].contains(r as usize) by {
                                    if r < i {
                                        let g2 = choose|g2: int| 0 <= g2 < old_order.len() && old_order[g2] == keys[r]->0;
                                        assert(old_order[g2] == key);
                                    } else {
                                        assert(nr[h][0] == r as usize);
                                    }
                                }
                            }
                        }
                        assert forall|r: int| 0 <= r < i + 1 && (#[trigger] keys[r]) is Some implies exists|h: int| 0 <= h < no.len() && no[h] == keys[r]->0 by {
                            if r == i {
                                assert(no[pp] == keys[r]->0);
                            } else {
                                let g2 = choose|g2: int| 0 <= g2 < old_order.len() && old_order[g2] == keys[r]->0;
                                if g2 < pp {
                                    assert(no[g2] == keys[r]->0);
                                } else {
                                    assert(no[g2 + 1] == keys[r]->0);
                                }
                            }
                        }
                    }
                }
            },
        }
        i = i + 1;
    }
    (order, rows)
}

/// Why the groupby columns of a table cannot be used.
#[derive(Debug, Clone, PartialEq, Eq)]
pub enum GroupError {
    /// No column has this name.
    ColumnNotFound { ctx: String, column: String },
    /// The column's dtype cannot key a group.
    UnsupportedDtype { ctx: String, column: String, dtype: DType },
}

/// The result of [`group_partition_multi`]: the distinct key tuples in order
/// of first appearance, the ascending row indices of each, and the dtype of
/// each groupby column.
#[derive(Debug, Clone)]
pub struct GroupPartitionMulti {
    pub order: Vec<Vec<KeyValue>>,
    pub rows: Vec<Vec<usize>>,
    pub dtypes: Vec<DType>,
}

impl GroupError {
    /// The text of the error, prefixed by the transform that raised it.
    pub open spec fn spec_message(self) -> Seq<char> {
        match self {
            GroupError::ColumnNotFound { ctx, column } =>
                ctx@ + ": groupby column '"@ + column@ + "' not found"@,
            GroupError::UnsupportedDtype { ctx, column, dtype } =>
                ctx@ + ": groupby column '"@ + column@ + "' has unsupported dtype; supported: "@
                    + "Utf8/LargeUtf8, Float64/Float32, Int8/Int16/Int32/Int64, UInt8/UInt16/UInt32/UInt64, Boolean"@,
        }
    }

    /// The text of the error.
    pub fn message(&self) -> (r: String)
        ensures
            r@ == self.spec_message(),
    {
        match self {
            GroupError::ColumnNotFound { ctx, column } => {
                let mut s = ctx.clone();
                s.append(": groupby column '");
                s.append(column.as_str());
                s.append("' not found");
                s
            },
            GroupError::UnsupportedDtype { ctx, column, dtype: _ } => {
                let mut s = ctx.clone();
                s.append(": groupby column '");
                s.append(column.as_str());
                s.append("' has unsupported dtype; supported: ");
                s.append("Utf8/LargeUtf8, Float64/Float32, Int8/Int16/Int32/Int64, UInt8/UInt16/UInt32/UInt64, Boolean");
                s
            },
        }
    }
}

impl GroupPartitionMulti {
    /// The rows of the group keyed by `key`, if there is one.
    pub fn rows_for(&self, key: &Vec<KeyValue>) -> (r: Option<&Vec<usize>>)
        requires
            self.order.len() == self.rows.len(),
        ensures
            match r {
                Some(v) => exists|g: int| 0 <= g < self.order.len() && order_view(self.order@)[g] == kv(key@) && self.rows@[g] == *v,
                None => forall|g: int| 0 <= g < self.order.len() ==> #[trigger] order_view(self.order@)[g] != kv(key@),
            },
    {
        match find_group(&self.order, key) {
            Some(g) => Some(&self.rows[g]),
            None => None,
        }
    }
}

/// Index of the table column named by each groupby column name (meaningful
/// when every name resolves).
pub open spec fn spec_resolved(t: Table, cols: Seq<String>) -> Seq<usize> {
    Seq::new(cols.len(), |d: int| spec_index_of(t.names@, cols[d]@)->0 as usize)
}

/// Whether groupby column `d` names a column of a supported key dtype.
pub open spec fn spec_col_ok(t: Table, cols: Seq<String>, d: int) -> bool {
    &&& spec_index_of(t.names@, cols[d]@) is Some
    &&& spec_col_dtype(t.columns@[spec_index_of(t.names@, cols[d]@)->0]) != DType::Other
}

/// The key of groupby dimension `d` at row `r`.
pub open spec fn spec_dim_key(t: Table, idx: Seq<usize>, d: int, r: int) -> KeyView {
    let c = t.columns@[idx[d] as int];
    spec_key_at(c, spec_col_dtype(c), r)->0
}

/// The key tuple of row `r`; with `skip_null`, `None` when any of its
/// groupby cells is null.
pub open spec fn spec_group_row_key(t: Table, idx: Seq<usize>, r: int, skip_null: bool) -> Option<Seq<KeyView>> {
    let ks = Seq::new(idx.len(), |d: int| spec_dim_key(t, idx, d, r));
    if skip_null && exists|d: int| 0 <= d < idx.len() && (#[trigger] ks[d]) is Null {
        None
    } else {
        Some(ks)
    }
}

/// The key tuples of all rows.
pub open spec fn spec_group_row_keys(t: Table, idx: Seq<usize>, skip_null: bool) -> Seq<Option<Seq<KeyView>>> {
    Seq::new(t.n_rows as nat, |r: int| spec_group_row_key(t, idx, r, skip_null))
}

/// Resolve the groupby column names to column indices and dtypes, failing on
/// the first name that is missing or of an unsupported dtype.
pub fn resolve_group_cols(batch: &Table, group_cols: &Vec<String>, ctx: &str) -> (r: Result<(Vec<usize>, Vec<DType>), GroupError>)
    requires
        batch.wf(),
    ensures
        match r {
            Ok((idx, dts)) => {
                &&& forall|d: int| 0 <= d < group_cols.len() ==> spec_col_ok(*batch, group_cols@, d)
                &&& idx@ == spec_resolved(*batch, group_cols@)
                &&& dts.len() == group_cols.len()
                &&& forall|d: int| 0 <= d < group_cols.len() ==> (#[trigger] idx@[d] as int) < batch.columns.len()
                    && dts@[d] == spec_col_dtype(batch.columns@[idx@[d] as int]) && dts@[d] != DType::Other
            },
            Err(e) => exists|d: int| 0 <= d < group_cols.len() && !spec_col_ok(*batch, group_cols@, d)
                && (forall|e2: int| 0 <= e2 < d ==> spec_col_ok(*batch, group_cols@, e2))
                && match e {
                    GroupError::ColumnNotFound { ctx: c, column } => c@ == ctx@ && column@ == group_cols@[d]@
                        && spec_index_of(batch.names@, group_cols@[d]@) is None,
                    GroupError::UnsupportedDtype { ctx: c, column, dtype } => c@ == ctx@ && column@ == group_cols@[d]@
                        && spec_index_of(batch.names@, group_cols@[d]@) is Some
                        && dtype == DType::Other,
                },
        },
{
    let mut idx: Vec<usize> = Vec::with_capacity(group_cols.len());
    let mut dts: Vec<DType> = Vec::with_capacity(group_cols.len());
    let mut d: usize = 0;
    while d < group_cols.len()
        invariant
            batch.wf(),
            0 <= d <= group_cols.len(),
            idx.len() == d,
            dts.len() == d,
            forall|e: int| 0 <= e < d ==> spec_col_ok(*batch, group_cols@, e),
            idx@ == spec_resolved(*batch, group_cols@).take(d as int),
            forall|e: int| 0 <= e < d ==> (#[trigger] idx@[e] as int) < batch.columns.len()
                && dts@[e] == spec_col_dtype(batch.columns@[idx@[e] as int]) && dts@[e] != DType::Other,
        decreases group_cols.len() - d,
    {
        match index_of(&batch.names, &group_cols[d]) {
            None => {
                assert(!spec_col_ok(*batch, group_cols@, d as int));
                return Err(GroupError::ColumnNotFound { ctx: String::from_str(ctx), column: group_cols[d].clone() });
            },
            Some(gi) => {
                let dt = batch.columns[gi].dtype();
                if !is_groupby_supported_dtype(dt) {
                    assert(!spec_col_ok(*batch, group_cols@, d as int));
                    return Err(GroupError::UnsupportedDtype { ctx: String::from_str(ctx), column: group_cols[d].clone(), dtype: dt });
                }
                idx.push(gi);
                dts.push(dt);
                assert(spec_resolved(*batch, group_cols@).take(d + 1) =~= spec_resolved(*batch, group_cols@).take(d as int).push(gi));
            },
        }
        d = d + 1;
    }
    assert(spec_resolved(*batch, group_cols@).take(d as int) =~= spec_resolved(*batch, group_cols@));
    Ok((idx, dts))
}

/// The key tuple of one row over resolved groupby columns; with
/// `skip_null`, `None` when any of its cells is null.
pub fn group_row_key(batch: &Table, idx: &Vec<usize>, dts: &Vec<DType>, row: usize, skip_null: bool) -> (r: Option<Vec<KeyValue>>)
    requires
        batch.wf(),
        row < batch.n_rows,
        idx.len() == dts.len(),
        forall|d: int| 0 <= d < idx.len() ==> (#[trigger] idx@[d] as int) < batch.columns.len()
            && dts@[d] == spec_col_dtype(batch.columns@[idx@[d] as int]) && dts@[d] != DType::Other,
    ensures
        okv(r) == spec_group_row_key(*batch, idx@, row as int, skip_null),
{
    let ghost ks = Seq::new(idx@.len(), |d: int| spec_dim_key(*batch, idx@, d, row as int));
    let mut key: Vec<KeyValue> = Vec::with_capacity(idx.len());
    let mut d: usize = 0;
    while d < idx.len()
        invariant
            batch.wf(),
            row < batch.n_rows,
            idx.len() == dts.len(),
            forall|e: int| 0 <= e < idx.len() ==> (#[trigger] idx@[e] as int) < batch.columns.len()
                && dts@[e] == spec_col_dtype(batch.columns@[idx@[e] as int]) && dts@[e] != DType::Other,
            ks == Seq::new(idx@.len(), |e: int| spec_dim_key(*batch, idx@, e, row as int)),
            0 <= d <= idx.len(),
            key.len() == d,
            forall|e: int| 0 <= e < d ==> key@[e]@ == ks[e] && (skip_null ==> !(ks[e] is Null)),
        decreases idx.len() - d,
    {
        let c = &batch.columns[idx[d]];
        assert(spec_col_len(*c) == batch.n_rows);
        let k = groupby_key_at(c, dts[d], row);
        match k {
            Some(kv1) => {
                assert(kv1@ == ks[d as int]);
                if skip_null {
                    if let KeyValue::Null = kv1 {
                        return None;
                    }
                }
                key.push(kv1);
            },
            None => {
                assert(false);
                return None;
            },
        }
        d = d + 1;
    }
    assert(kv(key@) =~= ks);
    Some(key)
}

/// Partition a table's rows by one or more groupby columns: groups in order
/// of first appearance, a row skipped when any of its groupby cells is null,
/// and each groupby column's dtype kept for rebuilding the output. With no
/// groupby column every row has the empty key and all rows form one group.
pub fn group_partition_multi(batch: &Table, group_cols: &Vec<String>, ctx: &str) -> (r: Result<GroupPartitionMulti, GroupError>)
    requires
        batch.wf(),
    ensures
        match r {
            Ok(p) => {
                &&& forall|d: int| 0 <= d < group_cols.len() ==> spec_col_ok(*batch, group_cols@, d)
                &&& p.dtypes.len() == group_cols.len()
                &&& forall|d: int| 0 <= d < group_cols.len() ==> p.dtypes@[d]
                    == spec_col_dtype(batch.columns@[#[trigger] spec_resolved(*batch, group_cols@)[d] as int])
                &&& is_first_appearance_partition(spec_group_row_keys(*batch, spec_resolved(*batch, group_cols@), true),
                    order_view(p.order@), rows_view(p.rows@))
            },
            Err(e) => exists|d: int| 0 <= d < group_cols.len() && !spec_col_ok(*batch, group_cols@, d)
                && (forall|e2: int| 0 <= e2 < d ==> spec_col_ok(*batch, group_cols@, e2))
                && match e {
                    GroupError::ColumnNotFound { ctx: c, column } => c@ == ctx@ && column@ == group_cols@[d]@
                        && spec_index_of(batch.names@, group_cols@[d]@) is None,
                    GroupError::UnsupportedDtype { ctx: c, column, dtype } => c@ == ctx@ && column@ == group_cols@[d]@
                        && spec_index_of(batch.names@, group_cols@[d]@) is Some
                        && dtype == DType::Other,
                },
        },
{
    let (idx, dts) = resolve_group_cols(batch, group_cols, ctx)?;
    let row_keys = table_row_keys(batch, &idx, &dts, true);
    let (order, rows) = partition_first_appearance(&row_keys);
    Ok(GroupPartitionMulti { order, rows, dtypes: dts })
}

/// The key tuples of every row over resolved groupby columns.
pub fn table_row_keys(batch: &Table, idx: &Vec<usize>, dts: &Vec<DType>, skip_null: bool) -> (r: Vec<Option<Vec<KeyValue>>>)
    requires
        batch.wf(),
        idx.len() == dts.len(),
        forall|d: int| 0 <= d < idx.len() ==> (#[trigger] idx@[d] as int) < batch.columns.len()
            && dts@[d] == spec_col_dtype(batch.columns@[idx@[d] as int]) && dts@[d] != DType::Other,
    ensures
        row_keys_view(r@) == spec_group_row_keys(*batch, idx@, skip_null),
{
    let mut out: Vec<Option<Vec<KeyValue>>> = Vec::with_capacity(batch.n_rows);
    let mut row: usize = 0;
    while row < batch.n_rows
        invariant
            batch.wf(),
            idx.len() == dts.len(),
            forall|d: int| 0 <= d < idx.len() ==> (#[trigger] idx@[d] as int) < batch.columns.len()
                && dts@[d] == spec_col_dtype(batch.columns@[idx@[d] as int]) && dts@[d] != DType::Other,
            0 <= row <= batch.n_rows,
            out.len() == row,
            forall|r: int| 0 <= r < row ==> okv(#[trigger] out@[r]) == spec_group_row_key(*batch, idx@, r, skip_null),
        decreases batch.n_rows - row,
    {
        out.push(group_row_key(batch, idx, dts, row, skip_null));
        row = row + 1;
    }
    assert(row_keys_view(out@) =~= spec_group_row_keys(*batch, idx@, skip_null));
    out
}

/// Partition a table's rows by groupby columns with the groups in increasing
/// key order and null cells keyed as `Null` (sorting first), as an ordered map
/// keyed by the key tuples groups them. With no groupby column the result is
/// a single group, keyed by the empty tuple, holding every row (also when
/// there is none).
pub fn group_sorted_with_nulls(batch: &Table, group_cols: &Vec<String>, ctx: &str) -> (r: Result<GroupPartitionMulti, GroupError>)
    requires
        batch.wf(),
    ensures
        match r {
            Ok(p) => {
                &&& forall|d: int| 0 <= d < group_cols.len() ==> spec_col_ok(*batch, group_cols@, d)
                &&& p.dtypes.len() == group_cols.len()
                &&& forall|d: int| 0 <= d < group_cols.len() ==> p.dtypes@[d]
                    == spec_col_dtype(batch.columns@[#[trigger] spec_resolved(*batch, group_cols@)[d] as int])
                &&& group_cols.len() > 0 ==> is_sorted_partition(spec_group_row_keys(*batch, spec_resolved(*batch, group_cols@), false),
                    order_view(p.order@), rows_view(p.rows@))
                &&& group_cols.len() == 0 ==> p.order.len() == 1 && p.order@[0].len() == 0 && p.rows.len() == 1
                    && p.rows@[0]@ == Seq::new(batch.n_rows as nat, |i: int| i as usize)
            },
            Err(e) => two_phase_error(*batch, group_cols@, ctx@, e),
        },
{
    let (idx, dts) = resolve_group_cols_two_phase(batch, group_cols, ctx)?;
    if group_cols.len() == 0 {
        let mut order: Vec<Vec<KeyValue>> = Vec::new();
        order.push(Vec::new());
        let mut rows: Vec<Vec<usize>> = Vec::new();
        rows.push(all_rows(batch.n_rows));
        return Ok(GroupPartitionMulti { order, rows, dtypes: dts });
    }
    let row_keys = table_row_keys(batch, &idx, &dts, false);
    let (order, rows) = partition_sorted(&row_keys);
    Ok(GroupPartitionMulti { order, rows, dtypes: dts })
}

/// The row indices `0..n`.
pub fn all_rows(n: usize) -> (r: Vec<usize>)
    ensures
        r@ == Seq::new(n as nat, |i: int| i as usize),
{
    let mut r: Vec<usize> = Vec::with_capacity(n);
    let mut i: usize = 0;
    while i < n
        invariant
            0 <= i <= n,
            r@ == Seq::new(i as nat, |j: int| j as usize),
        decreases n - i,
    {
        r.push(i);
        i = i + 1;
        assert(r@ =~= Seq::new(i as nat, |j: int| j as usize));
    }
    r
}

/// Whether groupby column `d` names some column.
pub open spec fn spec_col_found(t: Table, cols: Seq<String>, d: int) -> bool {
    spec_index_of(t.names@, cols[d]@) is Some
}

/// The error of a two-phase resolution: the first missing name if any name
/// is missing, else the first column of an unsupported dtype.
pub open spec fn two_phase_error(t: Table, cols: Seq<String>, ctx: Seq<char>, e: GroupError) -> bool {
    match e {
        GroupError::ColumnNotFound { ctx: c, column } => exists|d: int| 0 <= d < cols.len() && !spec_col_found(t, cols, d)
            && (forall|e2: int| 0 <= e2 < d ==> spec_col_found(t, cols, e2)) && c@ == ctx && column@ == cols[d]@,
        GroupError::UnsupportedDtype { ctx: c, column, dtype } => (forall|e2: int| 0 <= e2 < cols.len() ==> spec_col_found(t, cols, e2))
            && exists|d: int| 0 <= d < cols.len() && !spec_col_ok(t, cols, d)
            && (forall|e2: int| 0 <= e2 < d ==> spec_col_ok(t, cols, e2)) && c@ == ctx && column@ == cols[d]@ && dtype == DType::Other,
    }
}

/// Resolve the groupby column names to column indices and dtypes, checking
/// first that every name exists and then that every dtype is supported.
pub fn resolve_group_cols_two_phase(batch: &Table, group_cols: &Vec<String>, ctx: &str) -> (r: Result<(Vec<usize>, Vec<DType>), GroupError>)
    requires
        batch.wf(),
    ensures
        match r {
            Ok((idx, dts)) => {
                &&& forall|d: int| 0 <= d < group_cols.len() ==> spec_col_ok(*batch, group_cols@, d)
                &&& idx@ == spec_resolved(*batch, group_cols@)
                &&& dts.len() == group_cols.len()
                &&& forall|d: int| 0 <= d < group_cols.len() ==> (#[trigger] idx@[d] as int) < batch.columns.len()
                    && dts@[d] == spec_col_dtype(batch.columns@[idx@[d] as int]) && dts@[d] != DType::Other
            },
            Err(e) => two_phase_error(*batch, group_cols@, ctx@, e),
        },
{
    let mut d: usize = 0;
    while d < group_cols.len()
        invariant
            batch.wf(),
            0 <= d <= group_cols.len(),
            forall|e: int| 0 <= e < d ==> spec_col_found(*batch, group_cols@, e),
        decreases group_cols.len() - d,
    {
        match index_of(&batch.names, &group_cols[d]) {
            None => {
                assert(!spec_col_found(*batch, group_cols@, d as int));
                return Err(GroupError::ColumnNotFound { ctx: String::from_str(ctx), column: group_cols[d].clone() });
            },
            Some(_) => {},
        }
        d = d + 1;
    }
    match resolve_group_cols(batch, group_cols, ctx) {
        Ok(x) => Ok(x),
        Err(e) => {
            proof {
                if e is ColumnNotFound {
                    let w = choose|w: int| 0 <= w < group_cols.len() && !spec_col_ok(*batch, group_cols@, w)
                        && (forall|e2: int| 0 <= e2 < w ==> spec_col_ok(*batch, group_cols@, e2))
                        && spec_index_of(batch.names@, group_cols@[w]@) is None;
                    assert(spec_col_found(*batch, group_cols@, w));
                }
            }
            Err(e)
        },
    }
}

} // verus!
