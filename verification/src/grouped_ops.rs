//! Request checks and row groupings of the data transforms that group rows
//! or fill cells: stacking, data aggregation, join aggregation and
//! imputation. The floating-point arithmetic over each group is done by the
//! caller on the groups given here.

use vstd::prelude::*;
use crate::dtype::DType;
use crate::column::{ColumnData, Table, index_of, spec_index_of, spec_col_dtype, spec_col_len};
use crate::group_key::{KeyValue, KeyView, groupby_field_nullable};
use crate::options::{AggFn, ImputeMethod, StackOffset, parse_impute_method, parse_stack_offset, spec_impute_method, spec_stack_offset};
use crate::partition::{GroupError, GroupPartitionMulti, group_sorted_with_nulls, group_partition_multi, is_first_appearance_partition, two_phase_error, spec_col_ok,
    resolve_group_cols, table_row_keys, all_rows, is_partition, covers, exact_rows, lemma_partition_row_in_one_group,
    spec_resolved, spec_group_row_keys, is_sorted_partition, order_view, rows_view, row_keys_view, okv, partition_sorted};
use crate::stat_groups::{spec_is_nan_bits, is_nan_bits, OutputField};
use crate::window::{parts_disjoint, parts_view, in_no_part, vals_view, scatter, group_sorted_rows, is_key_groups, spec_full_row_keys, sorted_keys, rows_at,
    lemma_key_groups_place_each_row_once};

verus! {

/// What a correct sorted grouping of `t` by `cols` (nulls keyed as `Null`)
/// is: with groupby columns, the sorted partition of all rows by their key
/// tuples; without, one group, keyed by the empty tuple, of every row.
pub open spec fn spec_sorted_grouping(t: Table, cols: Seq<String>, p: GroupPartitionMulti) -> bool {
    &&& p.dtypes.len() == cols.len()
    &&& forall|d: int| 0 <= d < cols.len() ==> spec_col_ok(t, cols, d)
    &&& forall|d: int| 0 <= d < cols.len() ==> p.dtypes@[d] == spec_col_dtype(t.columns@[#[trigger] spec_resolved(t, cols)[d] as int])
    &&& cols.len() > 0 ==> is_sorted_partition(spec_group_row_keys(t, spec_resolved(t, cols), false),
        order_view(p.order@), rows_view(p.rows@))
    &&& cols.len() == 0 ==> p.order.len() == 1 && p.order@[0].len() == 0 && p.rows.len() == 1
        && p.rows@[0]@ == Seq::new(t.n_rows as nat, |i: int| i as usize)
}

/// Why a stack cannot run.
#[derive(Debug, Clone)]
pub enum StackError {
    /// The stacked field names no column.
    FieldNotFound(String),
    /// The stacked column is not `Float64`.
    FieldNotFloat64(String),
    /// A groupby column is missing or cannot key a group.
    Group(GroupError),
    /// The offset mode is not known (reported once there is a stack).
    UnknownOffset(String),
}

/// What a stack reads: the stacked column, the offset mode (absent only
/// when there is no stack to offset) and the stacks, each listing its rows
/// in the order in which they stack.
#[derive(Debug, Clone)]
pub struct StackPlan {
    pub field: usize,
    pub offset: Option<StackOffset>,
    pub stacks: Vec<Vec<usize>>,
}

/// Check a stack request and group its rows into stacks: the field must
/// exist and be `Float64`; the groupby columns must all exist and then all
/// be of key dtypes; an unknown offset is an error as soon as there is a
/// stack. `sorted_rows` is the row order given by the stack's sort fields
/// (the rows in table order without them): each stack holds the rows of one
/// groupby key tuple in that order, and without groupby columns all rows
/// form one stack.
pub fn plan_data_stack(batch: &Table, field: &String, groupby: &Vec<String>, offset: &str, sorted_rows: &Vec<usize>) -> (r: Result<StackPlan, StackError>)
    requires
        batch.wf(),
        forall|i: int| 0 <= i < sorted_rows.len() ==> (#[trigger] sorted_rows@[i] as int) < batch.n_rows,
    ensures
        match r {
            Ok(p) => spec_index_of(batch.names@, field@) == Some(p.field as int)
                && spec_col_dtype(batch.columns@[p.field as int]) == DType::Float64
                && (forall|d: int| 0 <= d < groupby.len() ==> spec_col_ok(*batch, groupby@, d))
                && (groupby.len() > 0 ==> is_key_groups(spec_full_row_keys(*batch, spec_resolved(*batch, groupby@)),
                    sorted_rows@, parts_view(p.stacks@)))
                && (groupby.len() == 0 ==> parts_view(p.stacks@) == seq![sorted_rows@])
                && (p.stacks.len() > 0 ==> p.offset == spec_stack_offset(offset@) && p.offset is Some)
                && (p.stacks.len() == 0 ==> p.offset == spec_stack_offset(offset@)),
            Err(StackError::FieldNotFound(f)) => spec_index_of(batch.names@, field@) is None && f@ == field@,
            Err(StackError::FieldNotFloat64(f)) => f@ == field@ && spec_index_of(batch.names@, field@) is Some
                && spec_col_dtype(batch.columns@[spec_index_of(batch.names@, field@)->0]) != DType::Float64,
            Err(StackError::Group(e)) => spec_index_of(batch.names@, field@) is Some
                && spec_col_dtype(batch.columns@[spec_index_of(batch.names@, field@)->0]) == DType::Float64
                && two_phase_error(*batch, groupby@, "data_stack"@, e),
            Err(StackError::UnknownOffset(o)) => spec_index_of(batch.names@, field@) is Some
                && spec_col_dtype(batch.columns@[spec_index_of(batch.names@, field@)->0]) == DType::Float64
                && (forall|d: int| 0 <= d < groupby.len() ==> spec_col_ok(*batch, groupby@, d))
                && (groupby.len() == 0 || sorted_rows.len() > 0)
                && spec_stack_offset(offset@) is None && o@ == offset@,
        },
{
    let f = match index_of(&batch.names, field) {
        None => {
            return Err(StackError::FieldNotFound(field.clone()));
        },
        Some(k) => k,
    };
    if batch.columns[f].dtype() != DType::Float64 {
        return Err(StackError::FieldNotFloat64(field.clone()));
    }
    let stacks = match group_sorted_rows(batch, groupby, sorted_rows, "data_stack") {
        Ok(s) => s,
        Err(e) => {
            return Err(StackError::Group(e));
        },
    };
    let parsed = parse_stack_offset(offset);
    proof {
        lemma_stack_count(*batch, groupby@, sorted_rows@, parts_view(stacks@));
    }
    if stacks.len() > 0 && parsed.is_none() {
        return Err(StackError::UnknownOffset(String::from_str(offset)));
    }
    Ok(StackPlan { field: f, offset: parsed, stacks })
}

/// Each row of the sort order stacks once: when `sorted` lists rows without
/// repeating one, the stacks of a plan are disjoint, every row of `sorted`
/// lies in one of them, and two rows share a stack exactly when they share
/// their groupby key tuple.
pub proof fn lemma_stacks_place_each_row_once(t: Table, groupby: Seq<String>, sorted: Seq<usize>, stacks: Seq<Seq<usize>>)
    requires
        groupby.len() > 0 ==> is_key_groups(spec_full_row_keys(t, spec_resolved(t, groupby)), sorted, stacks),
        groupby.len() == 0 ==> stacks == seq![sorted],
        sorted.no_duplicates(),
        sorted.len() <= usize::MAX,
        forall|j: int| 0 <= j < sorted.len() ==> (#[trigger] sorted[j] as int) < t.n_rows,
    ensures
        parts_disjoint(stacks, t.n_rows as int),
        forall|j: int| 0 <= j < sorted.len() ==> !in_no_part(stacks, #[trigger] sorted[j] as int),
        groupby.len() > 0 ==> forall|p: int, j: int, q: int, k: int|
            0 <= p < stacks.len() && 0 <= j < stacks[p].len() && 0 <= q < stacks.len() && 0 <= k < stacks[q].len()
            ==> (spec_full_row_keys(t, spec_resolved(t, groupby))[#[trigger] stacks[p][j] as int]
                == spec_full_row_keys(t, spec_resolved(t, groupby))[#[trigger] stacks[q][k] as int] <==> p == q),
{
    if groupby.len() > 0 {
        lemma_key_groups_place_each_row_once(spec_full_row_keys(t, spec_resolved(t, groupby)), sorted, stacks, t.n_rows as int);
    } else {
        assert(stacks[0] == sorted);
        assert forall|j: int| 0 <= j < sorted.len() implies !in_no_part(stacks, #[trigger] sorted[j] as int) by {
            assert(stacks[0][j] == sorted[j]);
        }
        assert forall|p: int, j: int, q: int, k: int|
            0 <= p < stacks.len() && 0 <= j < stacks[p].len() && 0 <= q < stacks.len() && 0 <= k < stacks[q].len()
            && (p != q || j != k) implies #[trigger] stacks[p][j] != #[trigger] stacks[q][k] by {
            assert(p == 0 && q == 0);
        }
    }
}

/// There is a stack exactly when there is no groupby column or there is a
/// row to stack.
proof fn lemma_stack_count(t: Table, groupby: Seq<String>, sorted: Seq<usize>, parts: Seq<Seq<usize>>)
    requires
        groupby.len() > 0 ==> is_key_groups(spec_full_row_keys(t, spec_resolved(t, groupby)), sorted, parts),
        groupby.len() == 0 ==> parts == seq![sorted],
    ensures
        parts.len() > 0 <==> (groupby.len() == 0 || sorted.len() > 0),
{
    if groupby.len() > 0 {
        let keys = spec_full_row_keys(t, spec_resolved(t, groupby));
        let (order, pos) = choose|order: Seq<Seq<KeyView>>, pos: Seq<Seq<usize>>|
            #[trigger] is_first_appearance_partition(sorted_keys(keys, sorted), order, pos) && parts == rows_at(sorted, pos);
        let sk = sorted_keys(keys, sorted);
        assert(is_partition(sk, sk.len() as int, order, pos));
        if sorted.len() > 0 {
            assert(sk[0] is Some);
            assert(covers(sk, sk.len() as int, order));
            let g = choose|g: int| 0 <= g < order.len() && order[g] == sk[0]->0;
            assert(pos.len() == order.len());
            assert(parts.len() == pos.len());
        } else if pos.len() > 0 {
            assert(pos[0].len() > 0 && exact_rows(sk, 0, order[0], pos[0]));
            assert((pos[0][0] as int) < 0);
        }
    }
}

/// Why a data aggregation cannot run.
#[derive(Debug, Clone)]
pub enum DataAggregateError {
    /// No aggregation was given.
    EmptyAggregates,
    /// An aggregation's field names no column.
    FieldNotFound(String),
    /// A groupby column is missing or cannot key a group.
    Group(GroupError),
}

/// Check a data-aggregation request and group its rows: there must be an
/// aggregation, every aggregation's field must exist (checked first), then
/// the groupby columns as for every sorted grouping. Gives each field's
/// column and the groups.
pub fn plan_data_aggregate(batch: &Table, fields: &Vec<String>, groupby: &Vec<String>) -> (r: Result<(Vec<usize>, GroupPartitionMulti), DataAggregateError>)
    requires
        batch.wf(),
    ensures
        match r {
            Ok((cols, g)) => fields.len() > 0 && cols.len() == fields.len()
                && (forall|i: int| 0 <= i < fields.len() ==> spec_index_of(batch.names@, #[trigger] fields@[i]@) == Some(cols@[i] as int))
                && spec_sorted_grouping(*batch, groupby@, g),
            Err(DataAggregateError::EmptyAggregates) => fields.len() == 0,
            Err(DataAggregateError::FieldNotFound(f)) => fields.len() > 0 && exists|i: int| 0 <= i < fields.len()
                && spec_index_of(batch.names@, fields@[i]@) is None && f@ == fields@[i]@
                && forall|j: int| 0 <= j < i ==> spec_index_of(batch.names@, #[trigger] fields@[j]@) is Some,
            Err(DataAggregateError::Group(e)) => fields.len() > 0
                && (forall|i: int| 0 <= i < fields.len() ==> spec_index_of(batch.names@, #[trigger] fields@[i]@) is Some)
                && two_phase_error(*batch, groupby@, "data_aggregate"@, e),
        },
{
    if fields.len() == 0 {
        return Err(DataAggregateError::EmptyAggregates);
    }
    let mut cols: Vec<usize> = Vec::with_capacity(fields.len());
    let mut i: usize = 0;
    while i < fields.len()
        invariant
            0 <= i <= fields.len(),
            cols.len() == i,
            forall|j: int| 0 <= j < i ==> spec_index_of(batch.names@, #[trigger] fields@[j]@) == Some(cols@[j] as int),
        decreases fields.len() - i,
    {
        match index_of(&batch.names, &fields[i]) {
            None => {
                return Err(DataAggregateError::FieldNotFound(fields[i].clone()));
            },
            Some(k) => {
                cols.push(k);
            },
        }
        i = i + 1;
    }
    match group_sorted_with_nulls(batch, groupby, "data_aggregate") {
        Ok(g) => Ok((cols, g)),
        Err(e) => Err(DataAggregateError::Group(e)),
    }
}

/// The output layout of a data aggregation: one nullable column per groupby
/// field, named by it and of its key dtype (a null-keyed group is written
/// as a null cell), then one nullable `Float64` column per aggregation,
/// named by its output name.
pub open spec fn spec_data_aggregate_fields(groupby: Seq<String>, dtypes: Seq<DType>, as_names: Seq<String>, fields: Seq<OutputField>) -> bool {
    &&& fields.len() == groupby.len() + as_names.len()
    &&& forall|d: int| 0 <= d < groupby.len() ==> (#[trigger] fields[d]).name@ == groupby[d]@
        && fields[d].dtype == dtypes[d] && fields[d].nullable
    &&& forall|i: int| 0 <= i < as_names.len() ==> (#[trigger] fields[groupby.len() + i]).name@ == as_names[i]@
        && fields[groupby.len() + i].dtype == DType::Float64
        && fields[groupby.len() + i].nullable
}

/// The output columns of a data aggregation (see
/// [`spec_data_aggregate_fields`]), given the key dtype of each groupby field.
pub fn data_aggregate_output_fields(groupby: &Vec<String>, dtypes: &Vec<DType>, as_names: &Vec<String>) -> (r: Vec<OutputField>)
    requires
        dtypes.len() == groupby.len(),
    ensures
        spec_data_aggregate_fields(groupby@, dtypes@, as_names@, r@),
{
    let mut out: Vec<OutputField> = Vec::new();
    let mut d: usize = 0;
    while d < groupby.len()
        invariant
            dtypes.len() == groupby.len(),
            0 <= d <= groupby.len(),
            out.len() == d,
            forall|e: int| 0 <= e < d ==> (#[trigger] out@[e]).name@ == groupby@[e]@
                && out@[e].dtype == dtypes@[e] && out@[e].nullable,
        decreases groupby.len() - d,
    {
        out.push(OutputField { name: groupby[d].clone(), dtype: dtypes[d], nullable: groupby_field_nullable() });
        d = d + 1;
    }
    let mut i: usize = 0;
    while i < as_names.len()
        invariant
            0 <= i <= as_names.len(),
            out.len() == groupby.len() + i,
            forall|e: int| 0 <= e < groupby.len() ==> (#[trigger] out@[e]).name@ == groupby@[e]@
                && out@[e].dtype == dtypes@[e] && out@[e].nullable,
            forall|j: int| 0 <= j < i ==> (#[trigger] out@[groupby.len() + j]).name@ == as_names@[j]@
                && out@[groupby.len() + j].dtype == DType::Float64
                && out@[groupby.len() + j].nullable,
        decreases as_names.len() - i,
    {
        out.push(OutputField { name: as_names[i].clone(), dtype: DType::Float64, nullable: true });
        i = i + 1;
    }
    out
}

/// The key text of a join-aggregate cell: `__null__` for a null cell, the
/// string of a `Utf8` cell, `__unknown__` for a cell of a dtype other than
/// `Float64`; `None` for a `Float64` cell, whose text is the number's own
/// display and is written by the caller.
pub open spec fn spec_join_key_text(c: ColumnData, row: int) -> Option<Seq<char>> {
    match c {
        ColumnData::Utf8(v) => match v@[row] { Some(s) => Some(s@), None => Some("__null__"@) },
        ColumnData::Float64(v) => match v@[row] { Some(_) => None, None => Some("__null__"@) },
        _ => if crate::column::spec_is_null(c, row) { Some("__null__"@) } else { Some("__unknown__"@) },
    }
}

/// The key text of a join-aggregate cell (see [`spec_join_key_text`]).
pub fn join_key_text(c: &ColumnData, row: usize) -> (r: Option<String>)
    requires
        row < spec_col_len(*c),
    ensures
        match r {
            Some(s) => spec_join_key_text(*c, row as int) == Some(s@),
            None => spec_join_key_text(*c, row as int) is None,
        },
{
    match c {
        ColumnData::Utf8(v) => match &v[row] {
            Some(s) => Some(s.clone()),
            None => Some(String::from_str("__null__")),
        },
        ColumnData::Float64(v) => match v[row] {
            Some(_) => None,
            None => Some(String::from_str("__null__")),
        },
        _ => if c.is_null(row) { Some(String::from_str("__null__")) } else { Some(String::from_str("__unknown__")) },
    }
}

/// The key tuples of rows given as texts.
pub open spec fn spec_text_keys(keys: Seq<Vec<String>>) -> Seq<Option<Seq<crate::group_key::KeyView>>> {
    Seq::new(keys.len(), |r: int| Some(Seq::new(keys[r].len() as nat, |d: int| crate::group_key::KeyView::Str(keys[r]@[d]@))))
}

/// Partition rows by their key texts, the groups in increasing order of
/// their text tuples.
pub fn partition_by_texts(keys: &Vec<Vec<String>>) -> (r: (Vec<Vec<KeyValue>>, Vec<Vec<usize>>))
    ensures
        is_sorted_partition(spec_text_keys(keys@), order_view(r.0@), rows_view(r.1@)),
{
    let mut row_keys: Vec<Option<Vec<KeyValue>>> = Vec::with_capacity(keys.len());
    let mut r: usize = 0;
    while r < keys.len()
        invariant
            0 <= r <= keys.len(),
            row_keys.len() == r,
            forall|q: int| 0 <= q < r ==> okv(#[trigger] row_keys@[q]) == spec_text_keys(keys@)[q],
        decreases keys.len() - r,
    {
        let row = &keys[r];
        let mut k: Vec<KeyValue> = Vec::with_capacity(row.len());
        let mut d: usize = 0;
        while d < row.len()
            invariant
                0 <= d <= row.len(),
                k.len() == d,
                forall|e: int| 0 <= e < d ==> (#[trigger] k@[e])@ == crate::group_key::KeyView::Str(row@[e]@),
            decreases row.len() - d,
        {
            k.push(KeyValue::Str(row[d].clone()));
            d = d + 1;
        }
        assert(crate::group_key::kv(k@) =~= Seq::new(row.len() as nat, |e: int| crate::group_key::KeyView::Str(row@[e]@)));
        row_keys.push(Some(k));
        r = r + 1;
    }
    assert(row_keys_view(row_keys@) =~= spec_text_keys(keys@));
    partition_sorted(&row_keys)
}

/// Why a join aggregation cannot run.
#[derive(Debug, Clone, PartialEq, Eq)]
pub enum JoinAggregateError {
    /// No aggregation was given.
    EmptyAggregates,
    /// A groupby field names no column.
    GroupbyNotFound(String),
    /// An aggregation's field names no column.
    FieldNotFound(String),
    /// An aggregation other than count reads a column that is not `Float64`.
    NotFloat64(String),
}

/// Whether aggregation `i` can run: its field exists and, unless it counts
/// or there is no row, is `Float64`.
pub open spec fn spec_join_agg_ok(t: Table, fields: Seq<String>, fns: Seq<AggFn>, i: int) -> bool {
    &&& spec_index_of(t.names@, fields[i]@) is Some
    &&& (fns[i] == AggFn::Count || t.n_rows == 0
        || spec_col_dtype(t.columns@[spec_index_of(t.names@, fields[i]@)->0]) == DType::Float64)
}

/// Check a join-aggregation request: there must be an aggregation, every
/// groupby field must exist, then each aggregation in turn must read an
/// existing column, of dtype `Float64` unless it counts (a table without
/// rows computes nothing). Gives the groupby columns and each field's column.
pub fn plan_join_aggregate(batch: &Table, fields: &Vec<String>, fns: &Vec<AggFn>, groupby: &Vec<String>) -> (r: Result<(Vec<usize>, Vec<usize>), JoinAggregateError>)
    requires
        batch.wf(),
        fields.len() == fns.len(),
    ensures
        match r {
            Ok((gcols, fcols)) => fields.len() > 0
                && gcols@ == spec_resolved(*batch, groupby@)
                && (forall|d: int| 0 <= d < groupby.len() ==> spec_index_of(batch.names@, #[trigger] groupby@[d]@) is Some)
                && fcols.len() == fields.len()
                && (forall|i: int| 0 <= i < fields.len() ==> spec_join_agg_ok(*batch, fields@, fns@, i)
                    && spec_index_of(batch.names@, fields@[i]@) == Some(#[trigger] fcols@[i] as int)),
            Err(JoinAggregateError::EmptyAggregates) => fields.len() == 0,
            Err(JoinAggregateError::GroupbyNotFound(g)) => fields.len() > 0 && exists|d: int| 0 <= d < groupby.len()
                && spec_index_of(batch.names@, groupby@[d]@) is None && g@ == groupby@[d]@
                && forall|e: int| 0 <= e < d ==> spec_index_of(batch.names@, #[trigger] groupby@[e]@) is Some,
            Err(e) => fields.len() > 0
                && (forall|d: int| 0 <= d < groupby.len() ==> spec_index_of(batch.names@, #[trigger] groupby@[d]@) is Some)
                && exists|i: int| 0 <= i < fields.len() && !spec_join_agg_ok(*batch, fields@, fns@, i)
                    && (forall|j: int| 0 <= j < i ==> spec_join_agg_ok(*batch, fields@, fns@, j))
                    && match e {
                        JoinAggregateError::FieldNotFound(f) => spec_index_of(batch.names@, fields@[i]@) is None && f@ == fields@[i]@,
                        JoinAggregateError::NotFloat64(f) => spec_index_of(batch.names@, fields@[i]@) is Some && f@ == fields@[i]@,
                        _ => false,
                    },
        },
{
    if fields.len() == 0 {
        return Err(JoinAggregateError::EmptyAggregates);
    }
    let mut gcols: Vec<usize> = Vec::with_capacity(groupby.len());
    let mut d: usize = 0;
    while d < groupby.len()
        invariant
            fields.len() > 0,
            0 <= d <= groupby.len(),
            gcols@ == spec_resolved(*batch, groupby@).take(d as int),
            forall|e: int| 0 <= e < d ==> spec_index_of(batch.names@, #[trigger] groupby@[e]@) is Some,
        decreases groupby.len() - d,
    {
        match index_of(&batch.names, &groupby[d]) {
            None => {
                return Err(JoinAggregateError::GroupbyNotFound(groupby[d].clone()));
            },
            Some(k) => {
                gcols.push(k);
                assert(spec_resolved(*batch, groupby@).take(d + 1) =~= spec_resolved(*batch, groupby@).take(d as int).push(k));
            },
        }
        d = d + 1;
    }
    assert(spec_resolved(*batch, groupby@).take(d as int) =~= spec_resolved(*batch, groupby@));
    let mut fcols: Vec<usize> = Vec::with_capacity(fields.len());
    let mut i: usize = 0;
    while i < fields.len()
        invariant
            batch.wf(),
            fields.len() == fns.len(),
            fields.len() > 0,
            forall|e: int| 0 <= e < groupby.len() ==> spec_index_of(batch.names@, #[trigger] groupby@[e]@) is Some,
            gcols@ == spec_resolved(*batch, groupby@),
            0 <= i <= fields.len(),
            fcols.len() == i,
            forall|j: int| 0 <= j < i ==> #[trigger] spec_join_agg_ok(*batch, fields@, fns@, j),
            forall|j: int| 0 <= j < i ==> spec_index_of(batch.names@, fields@[j]@) == Some(#[trigger] fcols@[j] as int),
        decreases fields.len() - i,
    {
        match index_of(&batch.names, &fields[i]) {
            None => {
                assert(!spec_join_agg_ok(*batch, fields@, fns@, i as int));
                return Err(JoinAggregateError::FieldNotFound(fields[i].clone()));
            },
            Some(k) => {
                if fns[i] != AggFn::Count && batch.n_rows > 0 && batch.columns[k].dtype() != DType::Float64 {
                    assert(!spec_join_agg_ok(*batch, fields@, fns@, i as int));
                    return Err(JoinAggregateError::NotFloat64(fields[i].clone()));
                }
                fcols.push(k);
            },
        }
        i = i + 1;
    }
    Ok((gcols, fcols))
}

/// Why an imputation cannot run.
#[derive(Debug, Clone, PartialEq, Eq)]
pub enum ImputeError {
    /// The field names no column.
    FieldNotFound(String),
    /// The column is not `Float64`.
    FieldNotFloat64(String),
    /// The method is not known.
    UnknownMethod(String),
    /// A groupby column is missing or cannot key a group.
    Group(GroupError),
}

/// The groupby columns of a request whose groupby is optional: none when
/// it is absent.
pub open spec fn spec_groupby_cols(groupby: Option<Vec<String>>) -> Seq<String> {
    match groupby {
        Some(g) => g@,
        None => Seq::empty(),
    }
}

/// What an imputation reads: the column, the method, and the groups within
/// which the fill value is computed.
#[derive(Debug, Clone)]
pub struct ImputePlan {
    pub column: usize,
    pub method: ImputeMethod,
    pub groups: GroupPartitionMulti,
}

/// Check an imputation request and group its rows: the field must exist and
/// be `Float64`, the method be known, and then the groupby columns (if any)
/// must all exist and then all be of key dtypes. Without groupby columns all
/// rows form one group.
pub fn plan_impute(batch: &Table, field: &String, method: &str, groupby: &Option<Vec<String>>) -> (r: Result<ImputePlan, ImputeError>)
    requires
        batch.wf(),
    ensures
        match r {
            Ok(p) => spec_index_of(batch.names@, field@) == Some(p.column as int)
                && spec_col_dtype(batch.columns@[p.column as int]) == DType::Float64
                && spec_impute_method(method@) == Some(p.method)
                && spec_sorted_grouping(*batch, spec_groupby_cols(*groupby), p.groups),
            Err(ImputeError::FieldNotFound(f)) => spec_index_of(batch.names@, field@) is None && f@ == field@,
            Err(ImputeError::FieldNotFloat64(f)) => f@ == field@ && spec_index_of(batch.names@, field@) is Some
                && spec_col_dtype(batch.columns@[spec_index_of(batch.names@, field@)->0]) != DType::Float64,
            Err(ImputeError::UnknownMethod(m)) => spec_index_of(batch.names@, field@) is Some
                && spec_col_dtype(batch.columns@[spec_index_of(batch.names@, field@)->0]) == DType::Float64
                && spec_impute_method(method@) is None && m@ == method@,
            Err(ImputeError::Group(e)) => spec_index_of(batch.names@, field@) is Some
                && spec_col_dtype(batch.columns@[spec_index_of(batch.names@, field@)->0]) == DType::Float64
                && spec_impute_method(method@) is Some
                && two_phase_error(*batch, spec_groupby_cols(*groupby), "data_impute"@, e),
        },
{
    let c = match index_of(&batch.names, field) {
        None => {
            return Err(ImputeError::FieldNotFound(field.clone()));
        },
        Some(k) => k,
    };
    if batch.columns[c].dtype() != DType::Float64 {
        return Err(ImputeError::FieldNotFloat64(field.clone()));
    }
    let m = match parse_impute_method(method) {
        Some(m) => m,
        None => {
            return Err(ImputeError::UnknownMethod(String::from_str(method)));
        },
    };
    let cols: Vec<String> = match groupby {
        Some(g) => g.clone(),
        None => Vec::new(),
    };
    assert(cols@ == spec_groupby_cols(*groupby));
    match group_sorted_with_nulls(batch, &cols, "data_impute") {
        Ok(groups) => Ok(ImputePlan { column: c, method: m, groups }),
        Err(e) => Err(ImputeError::Group(e)),
    }
}

/// A cell after imputation: a null or NaN cell takes `fill`, any other
/// keeps its value.
pub open spec fn spec_imputed(v: Option<u64>, fill: u64) -> u64 {
    match v {
        Some(b) => if spec_is_nan_bits(b) { fill } else { b },
        None => fill,
    }
}

/// `r` is `values` imputed within `groups`: a row of group `p` holds its
/// cell imputed with `fills[p]`, and a row in no group keeps its cell.
pub open spec fn spec_imputed_cells(values: Seq<Option<u64>>, groups: Seq<Seq<usize>>, fills: Seq<u64>, r: Seq<Option<u64>>) -> bool {
    &&& r.len() == values.len()
    &&& forall|p: int, j: int| 0 <= p < groups.len() && 0 <= j < groups[p].len()
        ==> r[#[trigger] groups[p][j] as int] == Some(spec_imputed(values[groups[p][j] as int], fills[p]))
    &&& forall|row: int| 0 <= row < values.len() && in_no_part(groups, row) ==> r[row] == values[row]
}

/// Fill the missing cells of a float column within groups: each cell of a
/// row of group `p` is imputed with `fills[p]`; a row in no group keeps its
/// cell as it was.
pub fn impute_cells(values: &Vec<Option<u64>>, groups: &Vec<Vec<usize>>, fills: &Vec<u64>) -> (r: Vec<Option<u64>>)
    requires
        parts_disjoint(parts_view(groups@), values.len() as int),
        fills.len() == groups.len(),
    ensures
        spec_imputed_cells(values@, parts_view(groups@), fills@, r@),
{
    let ghost pv = parts_view(groups@);
    let mut per: Vec<Vec<u64>> = Vec::with_capacity(groups.len());
    let mut p: usize = 0;
    while p < groups.len()
        invariant
            fills.len() == groups.len(),
            0 <= p <= groups.len(),
            per.len() == p,
            forall|q: int| 0 <= q < p ==> (#[trigger] per@[q]).len() == groups@[q].len(),
            forall|q: int, j: int| 0 <= q < p && 0 <= j < per@[q].len() ==> #[trigger] per@[q]@[j] == fills@[q],
        decreases groups.len() - p,
    {
        let mut v: Vec<u64> = Vec::with_capacity(groups[p].len());
        let mut j: usize = 0;
        while j < groups[p].len()
            invariant
                fills.len() == groups.len(),
                p < groups.len(),
                0 <= j <= groups@[p as int].len(),
                v.len() == j,
                forall|k: int| 0 <= k < j ==> #[trigger] v@[k] == fills@[p as int],
            decreases groups@[p as int].len() - j,
        {
            v.push(fills[p]);
            j = j + 1;
        }
        per.push(v);
        p = p + 1;
    }
    let rf = scatter(groups, &per, values.len());
    let ghost vv = vals_view(per@);
    assert forall|q: int, j: int| 0 <= q < groups.len() && 0 <= j < pv[q].len() implies #[trigger] vv[q][j] == fills@[q] by {
        assert(vv[q] == per@[q]@);
    }
    let mut out: Vec<Option<u64>> = Vec::with_capacity(values.len());
    let mut i: usize = 0;
    while i < values.len()
        invariant
            rf.len() == values.len(),
            0 <= i <= values.len(),
            out.len() == i,
            forall|k: int| 0 <= k < i ==> #[trigger] out@[k] == match rf@[k] {
                Some(f) => Some(spec_imputed(values@[k], f)),
                None => values@[k],
            },
        decreases values.len() - i,
    {
        let c = match rf[i] {
            Some(f) => Some(match values[i] {
                Some(b) => if is_nan_bits(b) { f } else { b },
                None => f,
            }),
            None => values[i],
        };
        out.push(c);
        i = i + 1;
    }
    proof {
        assert forall|q: int, j: int| 0 <= q < groups.len() && 0 <= j < groups@[q].len()
            implies out@[#[trigger] pv[q][j] as int] == Some(spec_imputed(values@[pv[q][j] as int], fills@[q])) by {
            assert(rf@[pv[q][j] as int] == Some(vv[q][j]));
        }
    }
    out
}

/// A correct sorted grouping places each row once: its groups are disjoint,
/// hold only rows of the table, and every row of the table lies in one.
pub proof fn lemma_sorted_grouping_places_each_row_once(t: Table, cols: Seq<String>, p: GroupPartitionMulti)
    requires
        spec_sorted_grouping(t, cols, p),
    ensures
        parts_disjoint(parts_view(p.rows@), t.n_rows as int),
        forall|r: int| 0 <= r < t.n_rows ==> !#[trigger] in_no_part(parts_view(p.rows@), r),
{
    let rv = rows_view(p.rows@);
    assert(rv =~= parts_view(p.rows@));
    let n = t.n_rows as int;
    if cols.len() == 0 {
        assert(rv.len() == 1 && rv[0] == Seq::new(t.n_rows as nat, |i: int| i as usize));
        assert forall|r: int| 0 <= r < n implies !#[trigger] in_no_part(rv, r) by {
            assert(rv[0][r] as int == r);
        }
    } else {
        let keys = spec_group_row_keys(t, spec_resolved(t, cols), false);
        let order = order_view(p.order@);
        assert(is_partition(keys, keys.len() as int, order, rv));
        assert(keys.len() == n);
        assert forall|g: int, j: int| 0 <= g < rv.len() && 0 <= j < rv[g].len() implies (#[trigger] rv[g][j] as int) < n by {
            assert(exact_rows(keys, n, order[g], rv[g]));
        }
        assert forall|g: int, j: int, h: int, k: int|
            0 <= g < rv.len() && 0 <= j < rv[g].len() && 0 <= h < rv.len() && 0 <= k < rv[h].len()
            && (g != h || j != k) implies #[trigger] rv[g][j] != #[trigger] rv[h][k] by {
            if rv[g][j] == rv[h][k] {
                let r = rv[g][j] as int;
                assert(exact_rows(keys, n, order[g], rv[g]));
                lemma_partition_row_in_one_group(keys, n, order, rv, r);
                assert(rv[g].contains(r as usize));
                assert(rv[h].contains(r as usize));
                assert(g == h);
                if j < k {
                    assert(rv[g][j] < rv[g][k]);
                } else if k < j {
                    assert(rv[g][k] < rv[g][j]);
                }
            }
        }
        assert forall|r: int| 0 <= r < n implies !#[trigger] in_no_part(rv, r) by {
            assert(keys[r] is Some);
            lemma_partition_row_in_one_group(keys, n, order, rv, r);
            let g = choose|g: int| 0 <= g < order.len() && order[g] == keys[r]->0 && rv[g].contains(r as usize);
            let k = choose|k: int| 0 <= k < rv[g].len() && rv[g][k] == r as usize;
            assert(rv[g][k] as int == r);
        }
    }
}

/// Imputing within the groups of a correct sorted grouping leaves no row
/// without a value, and a cell that is neither null nor NaN keeps its value.
pub proof fn lemma_grouped_imputation_fills_every_row(t: Table, cols: Seq<String>, p: GroupPartitionMulti,
    values: Seq<Option<u64>>, fills: Seq<u64>, r: Seq<Option<u64>>)
    requires
        spec_sorted_grouping(t, cols, p),
        values.len() == t.n_rows,
        fills.len() == p.rows.len(),
        spec_imputed_cells(values, parts_view(p.rows@), fills, r),
    ensures
        forall|i: int| 0 <= i < values.len() ==> (#[trigger] r[i]) is Some,
        forall|i: int| 0 <= i < values.len() && values[i] is Some && !spec_is_nan_bits(values[i]->0)
            ==> #[trigger] r[i] == values[i],
{
    lemma_sorted_grouping_places_each_row_once(t, cols, p);
    let pv = parts_view(p.rows@);
    assert forall|i: int| 0 <= i < values.len() implies (#[trigger] r[i]) is Some
        && (values[i] is Some && !spec_is_nan_bits(values[i]->0) ==> r[i] == values[i]) by {
        assert(!in_no_part(pv, i));
        let (g, k) = choose|g: int, k: int| 0 <= g < pv.len() && 0 <= k < pv[g].len() && pv[g][k] as int == i;
        assert(r[pv[g][k] as int] == Some(spec_imputed(values[pv[g][k] as int], fills[g])));
    }
}

/// The error of a groupby resolution that stops at the first column that is
/// missing or of an unsupported dtype.
pub open spec fn first_group_error(t: Table, cols: Seq<String>, ctx: Seq<char>, e: GroupError) -> bool {
    exists|d: int| 0 <= d < cols.len() && !spec_col_ok(t, cols, d)
        && (forall|e2: int| 0 <= e2 < d ==> spec_col_ok(t, cols, e2))
        && match e {
            GroupError::ColumnNotFound { ctx: c, column } => c@ == ctx && column@ == cols[d]@
                && spec_index_of(t.names@, cols[d]@) is None,
            GroupError::UnsupportedDtype { ctx: c, column, dtype } => c@ == ctx && column@ == cols[d]@
                && spec_index_of(t.names@, cols[d]@) is Some && dtype == DType::Other,
        }
}

/// Why box statistics cannot run.
#[derive(Debug, Clone)]
pub enum BoxStatsError {
    /// The value field names no column.
    FieldNotFound(String),
    /// The value column is not `Float64`.
    FieldNotFloat64(String),
    /// A groupby column is missing or cannot key a group.
    Group(GroupError),
    /// The table has no row.
    EmptyInput,
}

/// Check a box-statistics request and group its rows: the value field must
/// exist and be `Float64`; each groupby column in turn must exist and be of
/// a key dtype; the table must have a row. Groups come in key order, null
/// cells keyed as `Null`.
pub fn plan_box_stats(batch: &Table, field: &String, groupby: &Vec<String>) -> (r: Result<(usize, GroupPartitionMulti), BoxStatsError>)
    requires
        batch.wf(),
    ensures
        match r {
            Ok((v, g)) => spec_index_of(batch.names@, field@) == Some(v as int)
                && spec_col_dtype(batch.columns@[v as int]) == DType::Float64
                && batch.n_rows > 0
                && spec_sorted_grouping(*batch, groupby@, g),
            Err(BoxStatsError::FieldNotFound(f)) => spec_index_of(batch.names@, field@) is None && f@ == field@,
            Err(BoxStatsError::FieldNotFloat64(f)) => f@ == field@ && spec_index_of(batch.names@, field@) is Some
                && spec_col_dtype(batch.columns@[spec_index_of(batch.names@, field@)->0]) != DType::Float64,
            Err(BoxStatsError::Group(e)) => spec_index_of(batch.names@, field@) is Some
                && spec_col_dtype(batch.columns@[spec_index_of(batch.names@, field@)->0]) == DType::Float64
                && first_group_error(*batch, groupby@, "stat_box_stats"@, e),
            Err(BoxStatsError::EmptyInput) => spec_index_of(batch.names@, field@) is Some
                && spec_col_dtype(batch.columns@[spec_index_of(batch.names@, field@)->0]) == DType::Float64
                && (forall|d: int| 0 <= d < groupby.len() ==> spec_col_ok(*batch, groupby@, d))
                && batch.n_rows == 0,
        },
{
    let v = match index_of(&batch.names, field) {
        None => {
            return Err(BoxStatsError::FieldNotFound(field.clone()));
        },
        Some(k) => k,
    };
    if batch.columns[v].dtype() != DType::Float64 {
        return Err(BoxStatsError::FieldNotFloat64(field.clone()));
    }
    let (idx, dts) = match resolve_group_cols(batch, groupby, "stat_box_stats") {
        Ok(x) => x,
        Err(e) => {
            return Err(BoxStatsError::Group(e));
        },
    };
    if batch.n_rows == 0 {
        return Err(BoxStatsError::EmptyInput);
    }
    if groupby.len() == 0 {
        let mut order: Vec<Vec<KeyValue>> = Vec::new();
        order.push(Vec::new());
        let mut rows: Vec<Vec<usize>> = Vec::new();
        rows.push(all_rows(batch.n_rows));
        return Ok((v, GroupPartitionMulti { order, rows, dtypes: dts }));
    }
    let row_keys = table_row_keys(batch, &idx, &dts, false);
    let (order, rows) = partition_sorted(&row_keys);
    Ok((v, GroupPartitionMulti { order, rows, dtypes: dts }))
}

/// Why the rows of a 2-D density cannot be grouped.
#[derive(Debug, Clone, PartialEq, Eq)]
pub enum TextGroupError {
    /// No column has this name.
    NotFound(String),
    /// The column is not `Utf8` (its name and dtype).
    NotUtf8(String, DType),
}

/// Group a table's rows by one `Utf8` column: groups in order of first
/// appearance, null cells in no group.
pub fn group_by_text_column(batch: &Table, col: &String) -> (r: Result<GroupPartitionMulti, TextGroupError>)
    requires
        batch.wf(),
    ensures
        match r {
            Ok(p) => spec_index_of(batch.names@, col@) is Some
                && spec_col_dtype(batch.columns@[spec_index_of(batch.names@, col@)->0]) == DType::Utf8
                && p.dtypes@ == seq![DType::Utf8]
                && is_first_appearance_partition(
                    spec_group_row_keys(*batch, seq![spec_index_of(batch.names@, col@)->0 as usize], true),
                    order_view(p.order@), rows_view(p.rows@)),
            Err(TextGroupError::NotFound(c)) => spec_index_of(batch.names@, col@) is None && c@ == col@,
            Err(TextGroupError::NotUtf8(c, dt)) => spec_index_of(batch.names@, col@) is Some && c@ == col@
                && dt == spec_col_dtype(batch.columns@[spec_index_of(batch.names@, col@)->0]) && dt != DType::Utf8,
        },
{
    let k = match index_of(&batch.names, col) {
        None => {
            return Err(TextGroupError::NotFound(col.clone()));
        },
        Some(k) => k,
    };
    let dt = batch.columns[k].dtype();
    if dt != DType::Utf8 {
        return Err(TextGroupError::NotUtf8(col.clone(), dt));
    }
    let mut cols: Vec<String> = Vec::new();
    cols.push(col.clone());
    proof {
        assert(spec_col_ok(*batch, cols@, 0));
        assert(spec_resolved(*batch, cols@) =~= seq![k]);
    }
    match group_partition_multi(batch, &cols, "stat_kde_2d") {
        Ok(p) => {
            assert(spec_resolved(*batch, cols@)[0] == k);
            assert(p.dtypes@[0] == DType::Utf8);
            assert(p.dtypes@ =~= seq![DType::Utf8]);
            Ok(p)
        },
        Err(_) => {
            assert(false);
            Err(TextGroupError::NotFound(col.clone()))
        },
    }
}

} // verus!
