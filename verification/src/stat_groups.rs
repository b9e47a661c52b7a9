//! Grouping for the summary statistics (aggregate and error extent): which
//! columns they read, how each row is keyed, and the groups in key order.
//!
//! These statistics key a group by `Float64` and `Utf8` columns only. A null
//! float cell is keyed as the quiet NaN and a null string cell as the empty
//! string, so nulls share a group with those values; the groups come in
//! increasing key order.

use vstd::prelude::*;
use crate::dtype::DType;
use crate::column::{ColumnData, Table, index_of, spec_index_of, spec_col_dtype, spec_col_len, spec_is_null};
use crate::group_key::{KeyValue, KeyView, kv};
use crate::partition::{partition_sorted, all_rows, is_sorted_partition, order_view, rows_view, row_keys_view, okv, spec_resolved};
use crate::options::{AggFn, AggregateOp, is_count_star};

verus! {

/// The bit pattern of the quiet NaN, the key of a null float cell.
pub const NAN_BITS: u64 = 0x7ff8_0000_0000_0000u64;

/// The key of `row` in a `Float64` or `Utf8` column.
pub open spec fn spec_stat_key(c: ColumnData, row: int) -> KeyView {
    match c {
        ColumnData::Float64(v) => KeyView::Float(match v@[row] { Some(b) => b, None => NAN_BITS }),
        ColumnData::Utf8(v) => KeyView::Str(match v@[row] { Some(s) => s@, None => Seq::empty() }),
        _ => KeyView::Null,
    }
}

/// Read the key of `row` in a `Float64` or `Utf8` column.
pub fn stat_key_at(c: &ColumnData, row: usize) -> (r: KeyValue)
    requires
        row < spec_col_len(*c),
    ensures
        r@ == spec_stat_key(*c, row as int),
{
    match c {
        ColumnData::Float64(v) => KeyValue::Float(match v[row] { Some(b) => b, None => NAN_BITS }),
        ColumnData::Utf8(v) => match &v[row] {
            Some(s) => KeyValue::Str(s.clone()),
            None => KeyValue::Str(String::new()),
        },
        _ => KeyValue::Null,
    }
}

/// Why a summary statistic cannot run on a table.
#[derive(Debug, Clone, PartialEq, Eq)]
pub enum StatError {
    /// No aggregation was given.
    EmptyOps,
    /// A value field names no column.
    FieldNotFound(String),
    /// A value field is not a `Float64` column.
    FieldNotFloat64(String),
    /// A groupby field names no column.
    GroupbyNotFound(String),
    /// A groupby column is neither `Float64` nor `Utf8`; its dtype.
    GroupbyDtype(String, DType),
    /// The table has no row.
    EmptyInput,
}

/// Whether groupby field `d` names a `Float64` or `Utf8` column.
pub open spec fn spec_stat_col_ok(t: Table, cols: Seq<String>, d: int) -> bool {
    &&& spec_index_of(t.names@, cols[d]@) is Some
    &&& (spec_col_dtype(t.columns@[spec_index_of(t.names@, cols[d]@)->0]) == DType::Float64
        || spec_col_dtype(t.columns@[spec_index_of(t.names@, cols[d]@)->0]) == DType::Utf8)
}

/// The error for the first groupby field that is not usable.
pub open spec fn spec_stat_groupby_error(t: Table, cols: Seq<String>, e: StatError) -> bool {
    exists|d: int| 0 <= d < cols.len() && !spec_stat_col_ok(t, cols, d)
        && (forall|e2: int| 0 <= e2 < d ==> spec_stat_col_ok(t, cols, e2))
        && match e {
            StatError::GroupbyNotFound(c) => spec_index_of(t.names@, cols[d]@) is None && c@ == cols[d]@,
            StatError::GroupbyDtype(c, dt) => spec_index_of(t.names@, cols[d]@) is Some && c@ == cols[d]@
                && dt == spec_col_dtype(t.columns@[spec_index_of(t.names@, cols[d]@)->0]),
            _ => false,
        }
}

/// Resolve the groupby fields to column indices, failing on the first one
/// that is missing or neither `Float64` nor `Utf8`.
pub fn resolve_stat_groupby(batch: &Table, groupby: &Vec<String>) -> (r: Result<Vec<usize>, StatError>)
    requires
        batch.wf(),
    ensures
        match r {
            Ok(idx) => {
                &&& forall|d: int| 0 <= d < groupby.len() ==> spec_stat_col_ok(*batch, groupby@, d)
                &&& idx@ == spec_resolved(*batch, groupby@)
                &&& forall|d: int| 0 <= d < idx.len() ==> (#[trigger] idx@[d] as int) < batch.columns.len()
            },
            Err(e) => spec_stat_groupby_error(*batch, groupby@, e),
        },
{
    let mut idx: Vec<usize> = Vec::with_capacity(groupby.len());
    let mut d: usize = 0;
    while d < groupby.len()
        invariant
            batch.wf(),
            0 <= d <= groupby.len(),
            forall|e: int| 0 <= e < d ==> spec_stat_col_ok(*batch, groupby@, e),
            idx@ == spec_resolved(*batch, groupby@).take(d as int),
            forall|e: int| 0 <= e < idx.len() ==> (#[trigger] idx@[e] as int) < batch.columns.len(),
        decreases groupby.len() - d,
    {
        match index_of(&batch.names, &groupby[d]) {
            None => {
                assert(!spec_stat_col_ok(*batch, groupby@, d as int));
                return Err(StatError::GroupbyNotFound(groupby[d].clone()));
            },
            Some(k) => {
                let dt = batch.columns[k].dtype();
                if dt != DType::Float64 && dt != DType::Utf8 {
                    assert(!spec_stat_col_ok(*batch, groupby@, d as int));
                    return Err(StatError::GroupbyDtype(groupby[d].clone(), dt));
                }
                idx.push(k);
                assert(spec_resolved(*batch, groupby@).take(d + 1) =~= spec_resolved(*batch, groupby@).take(d as int).push(k));
            },
        }
        d = d + 1;
    }
    assert(spec_resolved(*batch, groupby@).take(d as int) =~= spec_resolved(*batch, groupby@));
    Ok(idx)
}

/// The key tuple of every row over resolved groupby columns.
pub open spec fn spec_stat_row_keys(t: Table, idx: Seq<usize>) -> Seq<Option<Seq<KeyView>>> {
    Seq::new(t.n_rows as nat, |r: int| Some(Seq::new(idx.len(), |d: int| spec_stat_key(t.columns@[idx[d] as int], r))))
}

/// The key tuple of one row.
fn stat_row_key(batch: &Table, idx: &Vec<usize>, row: usize) -> (r: Vec<KeyValue>)
    requires
        batch.wf(),
        row < batch.n_rows,
        forall|d: int| 0 <= d < idx.len() ==> (#[trigger] idx@[d] as int) < batch.columns.len(),
    ensures
        kv(r@) == Seq::new(idx@.len(), |d: int| spec_stat_key(batch.columns@[idx@[d] as int], row as int)),
{
    let mut out: Vec<KeyValue> = Vec::with_capacity(idx.len());
    let mut d: usize = 0;
    while d < idx.len()
        invariant
            batch.wf(),
            row < batch.n_rows,
            forall|e: int| 0 <= e < idx.len() ==> (#[trigger] idx@[e] as int) < batch.columns.len(),
            0 <= d <= idx.len(),
            out.len() == d,
            forall|e: int| 0 <= e < d ==> (#[trigger] out@[e])@ == spec_stat_key(batch.columns@[idx@[e] as int], row as int),
        decreases idx.len() - d,
    {
        let c = &batch.columns[idx[d]];
        out.push(stat_key_at(c, row));
        d = d + 1;
    }
    assert(kv(out@) =~= Seq::new(idx@.len(), |e: int| spec_stat_key(batch.columns@[idx@[e] as int], row as int)));
    out
}

/// Groups of a summary statistic: the key tuples in increasing order and
/// the ascending rows of each.
#[derive(Debug, Clone)]
pub struct StatGroups {
    pub keys: Vec<Vec<KeyValue>>,
    pub rows: Vec<Vec<usize>>,
}

/// What a correct grouping of `t` by `cols` is: with groupby fields, the
/// sorted partition of the rows by their key tuples; without, one group,
/// keyed by the empty tuple, of every row (also when there is none).
pub open spec fn spec_stat_grouped(t: Table, cols: Seq<String>, g: StatGroups) -> bool {
    &&& cols.len() > 0 ==> is_sorted_partition(spec_stat_row_keys(t, spec_resolved(t, cols)),
        order_view(g.keys@), rows_view(g.rows@))
    &&& cols.len() == 0 ==> g.keys.len() == 1 && g.keys@[0].len() == 0 && g.rows.len() == 1
        && g.rows@[0]@ == Seq::new(t.n_rows as nat, |i: int| i as usize)
}

/// Group the rows of a table by `Float64`/`Utf8` groupby columns.
pub fn stat_group_rows(batch: &Table, groupby: &Vec<String>) -> (r: Result<StatGroups, StatError>)
    requires
        batch.wf(),
    ensures
        match r {
            Ok(g) => (forall|d: int| 0 <= d < groupby.len() ==> spec_stat_col_ok(*batch, groupby@, d))
                && spec_stat_grouped(*batch, groupby@, g),
            Err(e) => spec_stat_groupby_error(*batch, groupby@, e),
        },
{
    let idx = resolve_stat_groupby(batch, groupby)?;
    if groupby.len() == 0 {
        let mut keys: Vec<Vec<KeyValue>> = Vec::new();
        keys.push(Vec::new());
        let mut rows: Vec<Vec<usize>> = Vec::new();
        rows.push(all_rows(batch.n_rows));
        return Ok(StatGroups { keys, rows });
    }
    let mut row_keys: Vec<Option<Vec<KeyValue>>> = Vec::with_capacity(batch.n_rows);
    let mut row: usize = 0;
    while row < batch.n_rows
        invariant
            batch.wf(),
            forall|d: int| 0 <= d < idx.len() ==> (#[trigger] idx@[d] as int) < batch.columns.len(),
            0 <= row <= batch.n_rows,
            row_keys.len() == row,
            forall|q: int| 0 <= q < row ==> okv(#[trigger] row_keys@[q]) == spec_stat_row_keys(*batch, idx@)[q],
        decreases batch.n_rows - row,
    {
        row_keys.push(Some(stat_row_key(batch, &idx, row)));
        row = row + 1;
    }
    assert(row_keys_view(row_keys@) =~= spec_stat_row_keys(*batch, idx@));
    let (keys, rows) = partition_sorted(&row_keys);
    Ok(StatGroups { keys, rows })
}


/// Whether an aggregation is `count()` over all rows.
pub open spec fn spec_count_star(op: AggregateOp) -> bool {
    op.fn_ == AggFn::Count && (op.field@.len() == 0 || op.field@ == "*"@)
}

/// Whether aggregation `op` can read its field: `count()` reads none; any
/// other needs an existing column, of dtype `Float64` unless it counts.
pub open spec fn spec_op_ok(t: Table, op: AggregateOp) -> bool {
    spec_count_star(op) || (spec_index_of(t.names@, op.field@) is Some
        && (op.fn_ == AggFn::Count || spec_col_dtype(t.columns@[spec_index_of(t.names@, op.field@)->0]) == DType::Float64))
}

/// The column each aggregation reads: `None` for `count()`.
pub open spec fn spec_op_cols(t: Table, ops: Seq<AggregateOp>) -> Seq<Option<usize>> {
    Seq::new(ops.len(), |i: int| if spec_count_star(ops[i]) { None::<usize> } else {
        Some(spec_index_of(t.names@, ops[i].field@)->0 as usize) })
}

/// The error for the first aggregation whose field is not usable.
pub open spec fn spec_op_error(t: Table, ops: Seq<AggregateOp>, e: StatError) -> bool {
    exists|i: int| 0 <= i < ops.len() && !spec_op_ok(t, ops[i])
        && (forall|j: int| 0 <= j < i ==> spec_op_ok(t, #[trigger] ops[j]))
        && match e {
            StatError::FieldNotFound(f) => spec_index_of(t.names@, ops[i].field@) is None && f@ == ops[i].field@,
            StatError::FieldNotFloat64(f) => spec_index_of(t.names@, ops[i].field@) is Some && f@ == ops[i].field@,
            _ => false,
        }
}

/// Check the aggregations against the table, in order, and give the column
/// each one reads.
pub fn resolve_ops(batch: &Table, ops: &Vec<AggregateOp>) -> (r: Result<Vec<Option<usize>>, StatError>)
    requires
        batch.wf(),
    ensures
        match r {
            Ok(cols) => (forall|i: int| 0 <= i < ops.len() ==> spec_op_ok(*batch, #[trigger] ops@[i]))
                && cols@ == spec_op_cols(*batch, ops@)
                && forall|i: int| 0 <= i < cols.len() && (#[trigger] cols@[i]) is Some ==> (cols@[i]->0 as int) < batch.columns.len(),
            Err(e) => spec_op_error(*batch, ops@, e),
        },
{
    let mut cols: Vec<Option<usize>> = Vec::with_capacity(ops.len());
    let mut i: usize = 0;
    while i < ops.len()
        invariant
            batch.wf(),
            0 <= i <= ops.len(),
            forall|j: int| 0 <= j < i ==> spec_op_ok(*batch, #[trigger] ops@[j]),
            cols@ == spec_op_cols(*batch, ops@).take(i as int),
            forall|j: int| 0 <= j < cols.len() && (#[trigger] cols@[j]) is Some ==> (cols@[j]->0 as int) < batch.columns.len(),
        decreases ops.len() - i,
    {
        let op = &ops[i];
        if is_count_star(op) {
            cols.push(None);
        } else {
            match index_of(&batch.names, &op.field) {
                None => {
                    assert(!spec_op_ok(*batch, ops@[i as int]));
                    return Err(StatError::FieldNotFound(op.field.clone()));
                },
                Some(k) => {
                    if op.fn_ != AggFn::Count && batch.columns[k].dtype() != DType::Float64 {
                        assert(!spec_op_ok(*batch, ops@[i as int]));
                        return Err(StatError::FieldNotFloat64(op.field.clone()));
                    }
                    cols.push(Some(k));
                },
            }
        }
        assert(spec_op_cols(*batch, ops@).take(i + 1) =~= spec_op_cols(*batch, ops@).take(i as int).push(cols@[i as int]));
        i = i + 1;
    }
    assert(spec_op_cols(*batch, ops@).take(i as int) =~= spec_op_cols(*batch, ops@));
    Ok(cols)
}

/// What an aggregation reads and writes: the column of each aggregation
/// (`None` for `count()`), the groups, and the output columns.
#[derive(Debug, Clone)]
pub struct AggregatePlan {
    pub op_cols: Vec<Option<usize>>,
    pub groups: StatGroups,
    pub fields: Vec<OutputField>,
}

/// Check an aggregation request against a table and group its rows: there
/// must be an aggregation, the aggregations' fields are checked first, then
/// the groupby fields.
pub fn plan_aggregate(batch: &Table, ops: &Vec<AggregateOp>, groupby: &Vec<String>) -> (r: Result<AggregatePlan, StatError>)
    requires
        batch.wf(),
    ensures
        match r {
            Ok(p) => ops.len() > 0
                && (forall|i: int| 0 <= i < ops.len() ==> spec_op_ok(*batch, #[trigger] ops@[i]))
                && p.op_cols@ == spec_op_cols(*batch, ops@)
                && (forall|d: int| 0 <= d < groupby.len() ==> spec_stat_col_ok(*batch, groupby@, d))
                && spec_stat_grouped(*batch, groupby@, p.groups)
                && spec_aggregate_fields(*batch, ops@, groupby@, p.fields@),
            Err(StatError::EmptyOps) => ops.len() == 0,
            Err(e) => ops.len() > 0 && (spec_op_error(*batch, ops@, e)
                || ((forall|i: int| 0 <= i < ops.len() ==> spec_op_ok(*batch, #[trigger] ops@[i]))
                    && spec_stat_groupby_error(*batch, groupby@, e))),
        },
{
    if ops.len() == 0 {
        return Err(StatError::EmptyOps);
    }
    let op_cols = resolve_ops(batch, ops)?;
    let groups = stat_group_rows(batch, groupby)?;
    let fields = aggregate_output_fields(batch, ops, groupby);
    Ok(AggregatePlan { op_cols, groups, fields })
}

/// One column of a statistic's output: its name, dtype and whether it may
/// hold nulls.
#[derive(Debug, Clone)]
pub struct OutputField {
    pub name: String,
    pub dtype: DType,
    pub nullable: bool,
}

/// The output layout of an aggregation: one non-nullable column per groupby
/// field, named by it and of its column's dtype, then one nullable `Float64`
/// column per aggregation, named by its output name.
pub open spec fn spec_aggregate_fields(t: Table, ops: Seq<AggregateOp>, groupby: Seq<String>, fields: Seq<OutputField>) -> bool {
    &&& fields.len() == groupby.len() + ops.len()
    &&& forall|d: int| 0 <= d < groupby.len() ==> (#[trigger] fields[d]).name@ == groupby[d]@
        && fields[d].dtype == spec_col_dtype(t.columns@[spec_index_of(t.names@, groupby[d]@)->0])
        && !fields[d].nullable
    &&& forall|i: int| 0 <= i < ops.len() ==> (#[trigger] fields[groupby.len() + i]).name@ == ops[i].as_@
        && fields[groupby.len() + i].dtype == DType::Float64
        && fields[groupby.len() + i].nullable
}

/// The output columns of an aggregation over usable groupby fields (see
/// [`spec_aggregate_fields`]).
pub fn aggregate_output_fields(batch: &Table, ops: &Vec<AggregateOp>, groupby: &Vec<String>) -> (r: Vec<OutputField>)
    requires
        batch.wf(),
        forall|d: int| 0 <= d < groupby.len() ==> spec_stat_col_ok(*batch, groupby@, d),
    ensures
        spec_aggregate_fields(*batch, ops@, groupby@, r@),
{
    let mut out: Vec<OutputField> = Vec::new();
    let mut d: usize = 0;
    while d < groupby.len()
        invariant
            batch.wf(),
            forall|e: int| 0 <= e < groupby.len() ==> spec_stat_col_ok(*batch, groupby@, e),
            0 <= d <= groupby.len(),
            out.len() == d,
            forall|e: int| 0 <= e < d ==> (#[trigger] out@[e]).name@ == groupby@[e]@
                && out@[e].dtype == spec_col_dtype(batch.columns@[spec_index_of(batch.names@, groupby@[e]@)->0])
                && !out@[e].nullable,
        decreases groupby.len() - d,
    {
        assert(spec_stat_col_ok(*batch, groupby@, d as int));
        let k = match index_of(&batch.names, &groupby[d]) {
            Some(k) => k,
            None => {
                assert(false);
                0
            },
        };
        out.push(OutputField { name: groupby[d].clone(), dtype: batch.columns[k].dtype(), nullable: false });
        d = d + 1;
    }
    let mut i: usize = 0;
    while i < ops.len()
        invariant
            0 <= i <= ops.len(),
            out.len() == groupby.len() + i,
            forall|e: int| 0 <= e < groupby.len() ==> (#[trigger] out@[e]).name@ == groupby@[e]@
                && out@[e].dtype == spec_col_dtype(batch.columns@[spec_index_of(batch.names@, groupby@[e]@)->0])
                && !out@[e].nullable,
            forall|j: int| 0 <= j < i ==> (#[trigger] out@[groupby.len() + j]).name@ == ops@[j].as_@
                && out@[groupby.len() + j].dtype == DType::Float64
                && out@[groupby.len() + j].nullable,
        decreases ops.len() - i,
    {
        out.push(OutputField { name: ops[i].as_.clone(), dtype: DType::Float64, nullable: true });
        i = i + 1;
    }
    out
}

/// Check an error-extent request against a table and group its rows: the
/// value field must exist and be `Float64`, then the groupby fields are
/// checked, and the table must have a row. Gives the value column's index.
pub fn plan_error_extent(batch: &Table, field: &String, groupby: &Vec<String>) -> (r: Result<(usize, StatGroups), StatError>)
    requires
        batch.wf(),
    ensures
        match r {
            Ok((v, g)) => spec_index_of(batch.names@, field@) == Some(v as int)
                && spec_col_dtype(batch.columns@[v as int]) == DType::Float64
                && (forall|d: int| 0 <= d < groupby.len() ==> spec_stat_col_ok(*batch, groupby@, d))
                && batch.n_rows > 0
                && spec_stat_grouped(*batch, groupby@, g),
            Err(StatError::FieldNotFound(f)) => spec_index_of(batch.names@, field@) is None && f@ == field@,
            Err(StatError::FieldNotFloat64(f)) => spec_index_of(batch.names@, field@) is Some && f@ == field@
                && spec_col_dtype(batch.columns@[spec_index_of(batch.names@, field@)->0]) != DType::Float64,
            Err(StatError::EmptyInput) => spec_index_of(batch.names@, field@) is Some
                && spec_col_dtype(batch.columns@[spec_index_of(batch.names@, field@)->0]) == DType::Float64
                && (forall|d: int| 0 <= d < groupby.len() ==> spec_stat_col_ok(*batch, groupby@, d))
                && batch.n_rows == 0,
            Err(e) => spec_index_of(batch.names@, field@) is Some
                && spec_col_dtype(batch.columns@[spec_index_of(batch.names@, field@)->0]) == DType::Float64
                && spec_stat_groupby_error(*batch, groupby@, e),
        },
{
    let v = match index_of(&batch.names, field) {
        None => {
            return Err(StatError::FieldNotFound(field.clone()));
        },
        Some(k) => k,
    };
    if batch.columns[v].dtype() != DType::Float64 {
        return Err(StatError::FieldNotFloat64(field.clone()));
    }
    let idx = resolve_stat_groupby(batch, groupby);
    match idx {
        Err(e) => {
            return Err(e);
        },
        Ok(_) => {},
    }
    if batch.n_rows == 0 {
        return Err(StatError::EmptyInput);
    }
    let g = stat_group_rows(batch, groupby)?;
    Ok((v, g))
}

/// Number of the listed rows whose cell is not null.
pub open spec fn spec_count_non_null(c: ColumnData, rows: Seq<usize>) -> int
    decreases rows.len(),
{
    if rows.len() == 0 {
        0
    } else {
        spec_count_non_null(c, rows.drop_last()) + if spec_is_null(c, rows.last() as int) { 0int } else { 1int }
    }
}

/// Count the listed rows whose cell is not null.
pub fn count_non_null(c: &ColumnData, rows: &Vec<usize>) -> (r: usize)
    requires
        forall|j: int| 0 <= j < rows.len() ==> (#[trigger] rows@[j] as int) < spec_col_len(*c),
    ensures
        r == spec_count_non_null(*c, rows@),
{
    let mut n: usize = 0;
    let mut i: usize = 0;
    while i < rows.len()
        invariant
            forall|j: int| 0 <= j < rows.len() ==> (#[trigger] rows@[j] as int) < spec_col_len(*c),
            0 <= i <= rows.len(),
            n == spec_count_non_null(*c, rows@.take(i as int)),
            n <= i,
        decreases rows.len() - i,
    {
        assert(rows@.take(i + 1).drop_last() =~= rows@.take(i as int));
        if !c.is_null(rows[i]) {
            n = n + 1;
        }
        i = i + 1;
    }
    assert(rows@.take(i as int) =~= rows@);
    n
}

/// Whether a bit pattern is a NaN: all exponent bits set and a non-zero
/// fraction.
pub open spec fn spec_is_nan_bits(b: u64) -> bool {
    (b & 0x7ff0_0000_0000_0000u64) == 0x7ff0_0000_0000_0000u64 && (b & 0x000f_ffff_ffff_ffffu64) != 0
}

/// Whether a bit pattern is a NaN.
pub fn is_nan_bits(b: u64) -> (r: bool)
    ensures
        r == spec_is_nan_bits(b),
{
    (b & 0x7ff0_0000_0000_0000u64) == 0x7ff0_0000_0000_0000u64 && (b & 0x000f_ffff_ffff_ffffu64) != 0
}

/// The values of the listed rows of a float column that are neither null
/// nor NaN, in row order.
pub open spec fn spec_finite_values(v: Seq<Option<u64>>, rows: Seq<usize>) -> Seq<u64>
    decreases rows.len(),
{
    if rows.len() == 0 {
        Seq::empty()
    } else {
        let prev = spec_finite_values(v, rows.drop_last());
        match v[rows.last() as int] {
            Some(b) => if spec_is_nan_bits(b) { prev } else { prev.push(b) },
            None => prev,
        }
    }
}

/// Collect the values of the listed rows that are neither null nor NaN.
pub fn finite_values(v: &Vec<Option<u64>>, rows: &Vec<usize>) -> (r: Vec<u64>)
    requires
        forall|j: int| 0 <= j < rows.len() ==> (#[trigger] rows@[j] as int) < v.len(),
    ensures
        r@ == spec_finite_values(v@, rows@),
{
    let mut out: Vec<u64> = Vec::new();
    let mut i: usize = 0;
    while i < rows.len()
        invariant
            forall|j: int| 0 <= j < rows.len() ==> (#[trigger] rows@[j] as int) < v.len(),
            0 <= i <= rows.len(),
            out@ == spec_finite_values(v@, rows@.take(i as int)),
        decreases rows.len() - i,
    {
        assert(rows@.take(i + 1).drop_last() =~= rows@.take(i as int));
        match v[rows[i]] {
            Some(b) => {
                if !is_nan_bits(b) {
                    out.push(b);
                }
            },
            None => {},
        }
        i = i + 1;
    }
    assert(rows@.take(i as int) =~= rows@);
    out
}

/// The number of distinct values.
pub fn count_distinct(vals: &Vec<u64>) -> (r: usize)
    ensures
        r == vals@.to_set().len(),
{
    let mut seen: Vec<u64> = Vec::new();
    let mut i: usize = 0;
    while i < vals.len()
        invariant
            0 <= i <= vals.len(),
            seen@.no_duplicates(),
            seen@.to_set() == vals@.take(i as int).to_set(),
            seen.len() <= i,
        decreases vals.len() - i,
    {
        let x = vals[i];
        let mut k: usize = 0;
        let mut found = false;
        while k < seen.len()
            invariant
                0 <= k <= seen.len(),
                found == exists|w: int| 0 <= w < k && #[trigger] seen@[w] == x,
            decreases seen.len() - k,
        {
            if seen[k] == x {
                found = true;
            }
            k = k + 1;
        }
        assert(vals@.take(i + 1) =~= vals@.take(i as int).push(x));
        if !found {
            let ghost before = seen@;
            seen.push(x);
            proof {
                assert forall|a: u64| seen@.contains(a) <==> vals@.take(i + 1).contains(a) by {
                    assert(before.to_set().contains(a) == vals@.take(i as int).to_set().contains(a));
                    if before.contains(a) {
                        let w = choose|w: int| 0 <= w < before.len() && before[w] == a;
                        assert(seen@[w] == a);
                    }
                    if seen@.contains(a) {
                        let w = choose|w: int| 0 <= w < seen@.len() && seen@[w] == a;
                        if w < before.len() {
                            assert(before[w] == a);
                        }
                    }
                    let t1 = vals@.take(i + 1);
                    if t1.contains(a) && a != x {
                        let w = choose|w: int| 0 <= w < t1.len() && t1[w] == a;
                        assert(vals@.take(i as int)[w] == a);
                    }
                    if a == x {
                        assert(seen@[before.len() as int] == x);
                        assert(vals@.take(i + 1)[i as int] == x);
                    }
                    let t0 = vals@.take(i as int);
                    if t0.contains(a) {
                        let w = choose|w: int| 0 <= w < t0.len() && t0[w] == a;
                        assert(t1[w] == a);
                    }
                }
            }
            assert(seen@.to_set() =~= vals@.take(i + 1).to_set());
        } else {
            assert(seen@.contains(x));
            assert(seen@.to_set() =~= vals@.take(i + 1).to_set());
        }
        i = i + 1;
    }
    assert(vals@.take(i as int) =~= vals@);
    proof {
        seen@.unique_seq_to_set();
    }
    seen.len()
}

/// A group never has more distinct values than values, and a group with a
/// value has at least one distinct value.
pub proof fn lemma_distinct_at_most_count(vals: Seq<u64>)
    ensures
        vals.to_set().len() <= vals.len(),
        vals.len() > 0 ==> vals.to_set().len() >= 1,
{
    vals.lemma_cardinality_of_set();
    vals.lemma_cardinality_of_empty_set_is_0();
}

/// The result of a counting aggregation over a group's non-null, non-NaN
/// values: their number for `count`, their number of distinct values for
/// `distinct`; `None` for the aggregations that compute in floating point.
pub fn counting_aggregate(fn_: AggFn, vals: &Vec<u64>) -> (r: Option<usize>)
    ensures
        r == match fn_ {
            AggFn::Count => Some(vals.len()),
            AggFn::Distinct => Some(vals@.to_set().len() as usize),
            _ => None::<usize>,
        },
{
    match fn_ {
        AggFn::Count => Some(vals.len()),
        AggFn::Distinct => Some(count_distinct(vals)),
        _ => None,
    }
}

} // verus!
