//! Column data types as the transforms see them, and the dtype rules that the
//! transforms share (which dtypes may key a group, which are numeric, and how
//! the value column of a fold is typed).

use vstd::prelude::*;

verus! {

/// The column data types that the transforms distinguish. Every other
/// columnar type is `Other`.
#[derive(Debug, Clone, Copy, PartialEq, Eq, Structural)]
pub enum DType {
    Utf8,
    LargeUtf8,
    Float64,
    Float32,
    Int8,
    Int16,
    Int32,
    Int64,
    UInt8,
    UInt16,
    UInt32,
    UInt64,
    Boolean,
    Other,
}

/// The dtypes that may be used as groupby keys.
pub open spec fn spec_groupby_supported(d: DType) -> bool {
    d != DType::Other
}

/// Numeric dtypes: signed and unsigned integers and floats.
pub open spec fn spec_numeric(d: DType) -> bool {
    match d {
        DType::Utf8 | DType::LargeUtf8 | DType::Boolean | DType::Other => false,
        _ => true,
    }
}

/// Returns `true` for the dtypes supported as groupby keys: strings, floats,
/// signed and unsigned integers of every width, and booleans.
pub fn is_groupby_supported_dtype(d: DType) -> (r: bool)
    ensures
        r == spec_groupby_supported(d),
{
    match d {
        DType::Other => false,
        _ => true,
    }
}

/// Returns `true` for integer and floating-point dtypes.
pub fn is_numeric(d: DType) -> (r: bool)
    ensures
        r == spec_numeric(d),
{
    match d {
        DType::Utf8 | DType::LargeUtf8 | DType::Boolean | DType::Other => false,
        _ => true,
    }
}

/// Why the value dtypes of a fold cannot be unified.
#[derive(Debug, Clone, Copy, PartialEq, Eq, Structural)]
pub enum UnifyError {
    /// No field to fold.
    NoFields,
    /// The fields mix types and are not all numeric.
    Incompatible,
}

/// The dtype of the value column of a fold over columns of types `ds`:
/// the common type when all agree, `Float64` when all are numeric, else an
/// error.
pub open spec fn spec_unify(ds: Seq<DType>) -> Result<DType, UnifyError> {
    if ds.len() == 0 {
        Err(UnifyError::NoFields)
    } else if forall|i: int| 0 <= i < ds.len() ==> #[trigger] ds[i] == ds[0] {
        Ok(ds[0])
    } else if forall|i: int| 0 <= i < ds.len() ==> spec_numeric(#[trigger] ds[i]) {
        Ok(DType::Float64)
    } else {
        Err(UnifyError::Incompatible)
    }
}

/// Unified value dtype for the folded columns (widened to `Float64` when the
/// columns are of mixed numeric types).
pub fn unify_dtypes(ds: &Vec<DType>) -> (r: Result<DType, UnifyError>)
    ensures
        r == spec_unify(ds@),
{
    if ds.len() == 0 {
        return Err(UnifyError::NoFields);
    }
    let first = ds[0];
    let mut all_same = true;
    let mut all_numeric = true;
    let mut i: usize = 0;
    while i < ds.len()
        invariant
            0 <= i <= ds.len(),
            ds.len() > 0,
            first == ds@[0],
            all_same == (forall|j: int| 0 <= j < i ==> #[trigger] ds@[j] == first),
            all_numeric == (forall|j: int| 0 <= j < i ==> spec_numeric(#[trigger] ds@[j])),
        decreases ds.len() - i,
    {
        if ds[i] != first {
            all_same = false;
        }
        if !is_numeric(ds[i]) {
            all_numeric = false;
        }
        i = i + 1;
    }
    if all_same {
        Ok(first)
    } else if all_numeric {
        Ok(DType::Float64)
    } else {
        Err(UnifyError::Incompatible)
    }
}

} // verus!
