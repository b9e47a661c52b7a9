//! Hexagonal binning: the request checks, the grouping of points by the
//! hexagon they fall in (cells in increasing axial-coordinate order), and
//! the id of each hexagon. Which hexagon a point falls in, and the value
//! aggregated over a cell, are computed by the caller in floating point.

use vstd::prelude::*;
use crate::column::{index_of, spec_index_of};
use crate::dtype::{DType, is_numeric, spec_numeric};
use crate::group_key::{KeyValue, KeyView, kv};
use crate::partition::{partition_sorted, is_sorted_partition, order_view, rows_view, row_keys_view, okv};
use crate::text::str_is;

verus! {

/// The aggregates of a hexagon's values.
#[derive(Debug, Clone, Copy, PartialEq, Eq, Structural)]
pub enum HexAggregate {
    Count,
    Mean,
    Sum,
    Min,
    Max,
    Median,
    Std,
    Var,
}

/// The aggregate named `s`.
pub open spec fn spec_hex_aggregate(s: Seq<char>) -> Option<HexAggregate> {
    if s == "count"@ { Some(HexAggregate::Count) }
    else if s == "mean"@ { Some(HexAggregate::Mean) }
    else if s == "sum"@ { Some(HexAggregate::Sum) }
    else if s == "min"@ { Some(HexAggregate::Min) }
    else if s == "max"@ { Some(HexAggregate::Max) }
    else if s == "median"@ { Some(HexAggregate::Median) }
    else if s == "std"@ { Some(HexAggregate::Std) }
    else if s == "var"@ { Some(HexAggregate::Var) }
    else { None }
}

/// The aggregate named `s`, if it is one.
pub fn parse_hex_aggregate(s: &str) -> (r: Option<HexAggregate>)
    ensures
        r == spec_hex_aggregate(s@),
{
    if str_is(s, "count") { Some(HexAggregate::Count) }
    else if str_is(s, "mean") { Some(HexAggregate::Mean) }
    else if str_is(s, "sum") { Some(HexAggregate::Sum) }
    else if str_is(s, "min") { Some(HexAggregate::Min) }
    else if str_is(s, "max") { Some(HexAggregate::Max) }
    else if str_is(s, "median") { Some(HexAggregate::Median) }
    else if str_is(s, "std") { Some(HexAggregate::Std) }
    else if str_is(s, "var") { Some(HexAggregate::Var) }
    else { None }
}

/// Why a hexagonal binning cannot run.
#[derive(Debug, Clone, PartialEq, Eq)]
pub enum HexError {
    /// A coordinate or value field names no column.
    ColumnNotFound(String),
    /// The aggregate is not known.
    UnknownAggregate(String),
    /// The aggregate (named here) needs a value field and none was given.
    RequiresField(String),
    /// A coordinate or value column is not numeric.
    NotNumeric(String),
}

/// What a hexagonal binning reads: the coordinate columns, the aggregate and
/// the value column, if one was given.
#[derive(Debug, Clone)]
pub struct HexPlan {
    pub x: usize,
    pub y: usize,
    pub aggregate: HexAggregate,
    pub field: Option<usize>,
}

/// The request names existing coordinate columns, a known aggregate, a value
/// field when the aggregate needs one, and an existing value column when one
/// is given.
pub open spec fn spec_hex_names_ok(names: Seq<String>, x: String, y: String, aggregate: Seq<char>, field: Option<String>) -> bool {
    &&& spec_index_of(names, x@) is Some
    &&& spec_index_of(names, y@) is Some
    &&& spec_hex_aggregate(aggregate) is Some
    &&& (spec_hex_aggregate(aggregate) != Some(HexAggregate::Count) ==> field is Some)
    &&& (field is Some ==> spec_index_of(names, field->0@) is Some)
}

/// Whether the column named `c` (which exists) is numeric.
pub open spec fn spec_named_numeric(names: Seq<String>, dtypes: Seq<DType>, c: String) -> bool {
    spec_numeric(dtypes[spec_index_of(names, c@)->0])
}

/// Check a hexagonal-binning request, in order: the x and y columns exist,
/// the aggregate is known, an aggregate other than count has a field, a
/// given field exists, and then the value column (if any), the x column and
/// the y column are numeric. `dtypes` holds the dtype of each named column.
pub fn plan_hex(names: &Vec<String>, dtypes: &Vec<DType>, x: &String, y: &String, aggregate: &str, field: &Option<String>) -> (r: Result<HexPlan, HexError>)
    requires
        dtypes.len() == names.len(),
    ensures
        match r {
            Ok(p) => spec_index_of(names@, x@) == Some(p.x as int)
                && spec_index_of(names@, y@) == Some(p.y as int)
                && spec_hex_aggregate(aggregate@) == Some(p.aggregate)
                && (p.aggregate != HexAggregate::Count ==> field is Some)
                && match *field {
                    Some(f) => spec_index_of(names@, f@) == Some(p.field->0 as int) && p.field is Some,
                    None => p.field is None,
                }
                && spec_numeric(dtypes@[p.x as int]) && spec_numeric(dtypes@[p.y as int])
                && (p.field is Some ==> spec_numeric(dtypes@[p.field->0 as int])),
            Err(HexError::ColumnNotFound(c)) =>
                (spec_index_of(names@, x@) is None && c@ == x@)
                || (spec_index_of(names@, x@) is Some && spec_index_of(names@, y@) is None && c@ == y@)
                || (spec_index_of(names@, x@) is Some && spec_index_of(names@, y@) is Some
                    && spec_hex_aggregate(aggregate@) is Some
                    && (spec_hex_aggregate(aggregate@) != Some(HexAggregate::Count) ==> field is Some)
                    && field is Some && c@ == field->0@ && spec_index_of(names@, c@) is None),
            Err(HexError::UnknownAggregate(a)) => spec_index_of(names@, x@) is Some && spec_index_of(names@, y@) is Some
                && spec_hex_aggregate(aggregate@) is None && a@ == aggregate@,
            Err(HexError::RequiresField(a)) => spec_index_of(names@, x@) is Some && spec_index_of(names@, y@) is Some
                && spec_hex_aggregate(aggregate@) is Some && spec_hex_aggregate(aggregate@) != Some(HexAggregate::Count)
                && field is None && a@ == aggregate@,
            Err(HexError::NotNumeric(c)) => spec_hex_names_ok(names@, *x, *y, aggregate@, *field)
                && ((field is Some && !spec_named_numeric(names@, dtypes@, field->0) && c@ == field->0@)
                    || ((field is None || spec_named_numeric(names@, dtypes@, field->0))
                        && !spec_named_numeric(names@, dtypes@, *x) && c@ == x@)
                    || ((field is None || spec_named_numeric(names@, dtypes@, field->0))
                        && spec_named_numeric(names@, dtypes@, *x)
                        && !spec_named_numeric(names@, dtypes@, *y) && c@ == y@)),
        },
{
    let xi = match index_of(names, x) {
        None => {
            return Err(HexError::ColumnNotFound(x.clone()));
        },
        Some(k) => k,
    };
    let yi = match index_of(names, y) {
        None => {
            return Err(HexError::ColumnNotFound(y.clone()));
        },
        Some(k) => k,
    };
    let agg = match parse_hex_aggregate(aggregate) {
        None => {
            return Err(HexError::UnknownAggregate(String::from_str(aggregate)));
        },
        Some(a) => a,
    };
    if agg != HexAggregate::Count && field.is_none() {
        return Err(HexError::RequiresField(String::from_str(aggregate)));
    }
    let fi = match field {
        None => None,
        Some(f) => match index_of(names, f) {
            None => {
                return Err(HexError::ColumnNotFound(f.clone()));
            },
            Some(k) => {
                if !is_numeric(dtypes[k]) {
                    return Err(HexError::NotNumeric(f.clone()));
                }
                Some(k)
            },
        },
    };
    if !is_numeric(dtypes[xi]) {
        return Err(HexError::NotNumeric(x.clone()));
    }
    if !is_numeric(dtypes[yi]) {
        return Err(HexError::NotNumeric(y.clone()));
    }
    Ok(HexPlan { x: xi, y: yi, aggregate: agg, field: fi })
}

/// The key of a point in axial coordinates `(q, r)`.
pub open spec fn cell_key(c: (i64, i64)) -> Seq<KeyView> {
    seq![KeyView::Int(c.0), KeyView::Int(c.1)]
}

/// The keys of points given by their axial coordinates.
pub open spec fn spec_cell_keys(coords: Seq<(i64, i64)>) -> Seq<Option<Seq<KeyView>>> {
    Seq::new(coords.len(), |i: int| Some(cell_key(coords[i])))
}

/// Group points by the hexagon they fall in: the cells in increasing order of
/// `(q, r)`, and the ascending points of each.
pub fn hex_cells(coords: &Vec<(i64, i64)>) -> (r: (Vec<(i64, i64)>, Vec<Vec<usize>>))
    ensures
        r.0.len() == r.1.len(),
        is_sorted_partition(spec_cell_keys(coords@), Seq::new(r.0.len() as nat, |g: int| cell_key(r.0@[g])), rows_view(r.1@)),
{
    let mut row_keys: Vec<Option<Vec<KeyValue>>> = Vec::with_capacity(coords.len());
    let mut i: usize = 0;
    while i < coords.len()
        invariant
            0 <= i <= coords.len(),
            row_keys.len() == i,
            forall|q: int| 0 <= q < i ==> okv(#[trigger] row_keys@[q]) == spec_cell_keys(coords@)[q],
        decreases coords.len() - i,
    {
        let (q, r) = coords[i];
        let mut k: Vec<KeyValue> = Vec::new();
        k.push(KeyValue::Int(q));
        k.push(KeyValue::Int(r));
        assert(kv(k@) =~= cell_key(coords@[i as int]));
        row_keys.push(Some(k));
        i = i + 1;
    }
    assert(row_keys_view(row_keys@) =~= spec_cell_keys(coords@));
    let (order, rows) = partition_sorted(&row_keys);
    let ghost keys = spec_cell_keys(coords@);
    let mut cells: Vec<(i64, i64)> = Vec::with_capacity(order.len());
    let mut g: usize = 0;
    while g < order.len()
        invariant
            is_sorted_partition(keys, order_view(order@), rows_view(rows@)),
            keys == spec_cell_keys(coords@),
            0 <= g <= order.len(),
            cells.len() == g,
            forall|h: int| 0 <= h < g ==> cell_key(#[trigger] cells@[h]) == order_view(order@)[h],
        decreases order.len() - g,
    {
        proof {
            let rg = rows_view(rows@)[g as int];
            assert(rg.len() > 0);
            assert(keys[rg[0] as int] == Some(order_view(order@)[g as int]));
        }
        let key = &order[g];
        proof {
            assert(kv(key@) == order_view(order@)[g as int]);
            assert(kv(key@).len() == 2);
        }
        let q = match &key[0] { KeyValue::Int(a) => *a, _ => 0 };
        let r = match &key[1] { KeyValue::Int(b) => *b, _ => 0 };
        proof {
            assert(kv(key@)[0] == key@[0]@);
            assert(kv(key@)[1] == key@[1]@);
        }
        cells.push((q, r));
        assert(cell_key((q, r)) =~= order_view(order@)[g as int]);
        g = g + 1;
    }
    assert(Seq::new(cells.len() as nat, |h: int| cell_key(cells@[h])) =~= order_view(order@));
    (cells, rows)
}

/// The id of hexagon `(q, r)`: `q * 65536 + r`.
pub fn hex_id(q: i64, r: i64) -> (id: i64)
    requires
        i64::MIN <= q * 65536 <= i64::MAX,
        i64::MIN <= q * 65536 + r <= i64::MAX,
    ensures
        id == q * 65536 + r,
{
    q * 65536 + r
}

} // verus!
