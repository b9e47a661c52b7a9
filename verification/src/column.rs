//! The library's own columnar table: the values a transform reads from its
//! input batch, held as plain Rust values per dtype.

use vstd::prelude::*;
use crate::dtype::DType;

verus! {

/// One column's values, by dtype. `None` is a null cell. Floating-point
/// cells are held as the IEEE-754 bit pattern of the value widened to
/// `f64` (for `Float32` columns too); `Other` is a column of a dtype that
/// the transforms do not read, holding only its row count.
#[derive(Debug, Clone)]
pub enum ColumnData {
    Utf8(Vec<Option<String>>),
    LargeUtf8(Vec<Option<String>>),
    Float64(Vec<Option<u64>>),
    Float32(Vec<Option<u64>>),
    Int8(Vec<Option<i8>>),
    Int16(Vec<Option<i16>>),
    Int32(Vec<Option<i32>>),
    Int64(Vec<Option<i64>>),
    UInt8(Vec<Option<u8>>),
    UInt16(Vec<Option<u16>>),
    UInt32(Vec<Option<u32>>),
    UInt64(Vec<Option<u64>>),
    Boolean(Vec<Option<bool>>),
    Other(usize),
}

/// Number of rows of a column.
pub open spec fn spec_col_len(c: ColumnData) -> nat {
    match c {
        ColumnData::Utf8(v) => v.len() as nat,
        ColumnData::LargeUtf8(v) => v.len() as nat,
        ColumnData::Float64(v) => v.len() as nat,
        ColumnData::Float32(v) => v.len() as nat,
        ColumnData::Int8(v) => v.len() as nat,
        ColumnData::Int16(v) => v.len() as nat,
        ColumnData::Int32(v) => v.len() as nat,
        ColumnData::Int64(v) => v.len() as nat,
        ColumnData::UInt8(v) => v.len() as nat,
        ColumnData::UInt16(v) => v.len() as nat,
        ColumnData::UInt32(v) => v.len() as nat,
        ColumnData::UInt64(v) => v.len() as nat,
        ColumnData::Boolean(v) => v.len() as nat,
        ColumnData::Other(n) => n as nat,
    }
}

/// The dtype of a column.
pub open spec fn spec_col_dtype(c: ColumnData) -> DType {
    match c {
        ColumnData::Utf8(_) => DType::Utf8,
        ColumnData::LargeUtf8(_) => DType::LargeUtf8,
        ColumnData::Float64(_) => DType::Float64,
        ColumnData::Float32(_) => DType::Float32,
        ColumnData::Int8(_) => DType::Int8,
        ColumnData::Int16(_) => DType::Int16,
        ColumnData::Int32(_) => DType::Int32,
        ColumnData::Int64(_) => DType::Int64,
        ColumnData::UInt8(_) => DType::UInt8,
        ColumnData::UInt16(_) => DType::UInt16,
        ColumnData::UInt32(_) => DType::UInt32,
        ColumnData::UInt64(_) => DType::UInt64,
        ColumnData::Boolean(_) => DType::Boolean,
        ColumnData::Other(_) => DType::Other,
    }
}

/// Whether the cell at `row` is null (cells of `Other` columns are never read
/// and count as non-null).
pub open spec fn spec_is_null(c: ColumnData, row: int) -> bool {
    match c {
        ColumnData::Utf8(v) => v@[row] is None,
        ColumnData::LargeUtf8(v) => v@[row] is None,
        ColumnData::Float64(v) => v@[row] is None,
        ColumnData::Float32(v) => v@[row] is None,
        ColumnData::Int8(v) => v@[row] is None,
        ColumnData::Int16(v) => v@[row] is None,
        ColumnData::Int32(v) => v@[row] is None,
        ColumnData::Int64(v) => v@[row] is None,
        ColumnData::UInt8(v) => v@[row] is None,
        ColumnData::UInt16(v) => v@[row] is None,
        ColumnData::UInt32(v) => v@[row] is None,
        ColumnData::UInt64(v) => v@[row] is None,
        ColumnData::Boolean(v) => v@[row] is None,
        ColumnData::Other(_) => false,
    }
}

impl ColumnData {
    /// Number of rows.
    pub fn len(&self) -> (r: usize)
        ensures
            r == spec_col_len(*self),
    {
        match self {
            ColumnData::Utf8(v) => v.len(),
            ColumnData::LargeUtf8(v) => v.len(),
            ColumnData::Float64(v) => v.len(),
            ColumnData::Float32(v) => v.len(),
            ColumnData::Int8(v) => v.len(),
            ColumnData::Int16(v) => v.len(),
            ColumnData::Int32(v) => v.len(),
            ColumnData::Int64(v) => v.len(),
            ColumnData::UInt8(v) => v.len(),
            ColumnData::UInt16(v) => v.len(),
            ColumnData::UInt32(v) => v.len(),
            ColumnData::UInt64(v) => v.len(),
            ColumnData::Boolean(v) => v.len(),
            ColumnData::Other(n) => *n,
        }
    }

    /// The column's dtype.
    pub fn dtype(&self) -> (r: DType)
        ensures
            r == spec_col_dtype(*self),
    {
        match self {
            ColumnData::Utf8(_) => DType::Utf8,
            ColumnData::LargeUtf8(_) => DType::LargeUtf8,
            ColumnData::Float64(_) => DType::Float64,
            ColumnData::Float32(_) => DType::Float32,
            ColumnData::Int8(_) => DType::Int8,
            ColumnData::Int16(_) => DType::Int16,
            ColumnData::Int32(_) => DType::Int32,
            ColumnData::Int64(_) => DType::Int64,
            ColumnData::UInt8(_) => DType::UInt8,
            ColumnData::UInt16(_) => DType::UInt16,
            ColumnData::UInt32(_) => DType::UInt32,
            ColumnData::UInt64(_) => DType::UInt64,
            ColumnData::Boolean(_) => DType::Boolean,
            ColumnData::Other(_) => DType::Other,
        }
    }

    /// Whether the cell at `row` is null.
    pub fn is_null(&self, row: usize) -> (r: bool)
        requires
            row < spec_col_len(*self),
        ensures
            r == spec_is_null(*self, row as int),
    {
        match self {
            ColumnData::Utf8(v) => v[row].is_none(),
            ColumnData::LargeUtf8(v) => v[row].is_none(),
            ColumnData::Float64(v) => v[row].is_none(),
            ColumnData::Float32(v) => v[row].is_none(),
            ColumnData::Int8(v) => v[row].is_none(),
            ColumnData::Int16(v) => v[row].is_none(),
            ColumnData::Int32(v) => v[row].is_none(),
            ColumnData::Int64(v) => v[row].is_none(),
            ColumnData::UInt8(v) => v[row].is_none(),
            ColumnData::UInt16(v) => v[row].is_none(),
            ColumnData::UInt32(v) => v[row].is_none(),
            ColumnData::UInt64(v) => v[row].is_none(),
            ColumnData::Boolean(v) => v[row].is_none(),
            ColumnData::Other(_) => false,
        }
    }
}

/// A table: named columns of equal length.
#[derive(Debug, Clone)]
pub struct Table {
    pub names: Vec<String>,
    pub columns: Vec<ColumnData>,
    pub n_rows: usize,
}

impl Table {
    /// Well-formed: one name per column and every column `n_rows` long.
    pub open spec fn wf(&self) -> bool {
        &&& self.names.len() == self.columns.len()
        &&& forall|i: int| 0 <= i < self.columns.len() ==> spec_col_len(#[trigger] self.columns@[i]) == self.n_rows
    }
}

/// Position of the first name equal to `name`, as a schema lookup finds it.
pub open spec fn spec_index_of(names: Seq<String>, name: Seq<char>) -> Option<int> {
    if exists|i: int| 0 <= i < names.len() && #[trigger] names[i]@ == name {
        Some(choose|i: int| 0 <= i < names.len() && names[i]@ == name && forall|j: int| 0 <= j < i ==> #[trigger] names[j]@ != name)
    } else {
        None
    }
}

/// Index of the first column named `name`, or `None` when no column has that
/// name.
pub fn index_of(names: &Vec<String>, name: &String) -> (r: Option<usize>)
    ensures
        match r {
            Some(i) => i < names.len() && names@[i as int]@ == name@
                && forall|j: int| 0 <= j < i ==> #[trigger] names@[j]@ != name@,
            None => forall|j: int| 0 <= j < names.len() ==> #[trigger] names@[j]@ != name@,
        },
        r == match spec_index_of(names@, name@) { Some(i) => Some(i as usize), None => None::<usize> },
{
    let mut i: usize = 0;
    while i < names.len()
        invariant
            0 <= i <= names.len(),
            forall|j: int| 0 <= j < i ==> #[trigger] names@[j]@ != name@,
        decreases names.len() - i,
    {
        if names[i].eq(name) {
            proof {
                let w = choose|k: int| 0 <= k < names.len() && names@[k]@ == name@ && forall|j: int| 0 <= j < k ==> #[trigger] names@[j]@ != name@;
                assert(names@[i as int]@ == name@);
                if w < i {
                    assert(names@[w]@ != name@);
                } else if w > i {
                    assert(names@[i as int]@ != name@);
                }
            }
            return Some(i);
        }
        i = i + 1;
    }
    None
}

} // verus!
