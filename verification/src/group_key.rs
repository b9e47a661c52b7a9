//! Group keys shared by every grouping transform: which values may key a
//! group, how a row's key is read from a column, how keys compare, and how the
//! keys are turned back into an output column of the original dtype.

use vstd::prelude::*;
use crate::dtype::{DType, is_groupby_supported_dtype};
use crate::column::{ColumnData, spec_col_dtype, spec_col_len};
use crate::order::{lex_lt, str_lt, strict_total, string_less, lemma_str_lt_facts, lemma_lex_irreflexive, lemma_lex_transitive, lemma_lex_total};

verus! {

/// A single group-key value. `Null` keys every null row of any dtype, so a
/// null never collides with a real value; floats are keyed by their IEEE-754
/// bit pattern (a NaN is a real, non-null key); signed and unsigned integers
/// are widened to 64 bits; booleans are 0 or 1.
#[derive(Debug, Clone, Eq)]
pub enum KeyValue {
    Null,
    Str(String),
    Float(u64),
    Int(i64),
    UInt(u64),
    Bool(u8),
}

/// The mathematical value of a [`KeyValue`].
pub enum KeyView {
    Null,
    Str(Seq<char>),
    Float(u64),
    Int(i64),
    UInt(u64),
    Bool(u8),
}

impl View for KeyValue {
    type V = KeyView;

    open spec fn view(&self) -> KeyView {
        match self {
            KeyValue::Null => KeyView::Null,
            KeyValue::Str(s) => KeyView::Str(s@),
            KeyValue::Float(b) => KeyView::Float(*b),
            KeyValue::Int(x) => KeyView::Int(*x),
            KeyValue::UInt(x) => KeyView::UInt(*x),
            KeyValue::Bool(x) => KeyView::Bool(*x),
        }
    }
}

/// The views of a sequence of key values.
pub open spec fn kv(s: Seq<KeyValue>) -> Seq<KeyView> {
    s.map_values(|k: KeyValue| k@)
}

/// Whether two key values are equal.
pub fn key_value_eq(a: &KeyValue, b: &KeyValue) -> (r: bool)
    ensures
        r == (a@ == b@),
{
    match (a, b) {
        (KeyValue::Null, KeyValue::Null) => true,
        (KeyValue::Str(x), KeyValue::Str(y)) => x.eq(y),
        (KeyValue::Float(x), KeyValue::Float(y)) => *x == *y,
        (KeyValue::Int(x), KeyValue::Int(y)) => *x == *y,
        (KeyValue::UInt(x), KeyValue::UInt(y)) => *x == *y,
        (KeyValue::Bool(x), KeyValue::Bool(y)) => *x == *y,
        _ => false,
    }
}

impl PartialEq for KeyValue {
    fn eq(&self, other: &Self) -> (r: bool) {
        key_value_eq(self, other)
    }
}

impl vstd::std_specs::cmp::PartialEqSpecImpl for KeyValue {
    open spec fn obeys_eq_spec() -> bool {
        true
    }

    open spec fn eq_spec(&self, other: &KeyValue) -> bool {
        self@ == other@
    }
}

/// Whether two key tuples are equal, element by element.
pub fn key_vec_eq(a: &Vec<KeyValue>, b: &Vec<KeyValue>) -> (r: bool)
    ensures
        r == (kv(a@) == kv(b@)),
{
    if a.len() != b.len() {
        assert(kv(a@).len() != kv(b@).len());
        return false;
    }
    let mut i: usize = 0;
    while i < a.len()
        invariant
            a.len() == b.len(),
            0 <= i <= a.len(),
            forall|j: int| 0 <= j < i ==> a@[j]@ == b@[j]@,
        decreases a.len() - i,
    {
        if !key_value_eq(&a[i], &b[i]) {
            assert(kv(a@)[i as int] != kv(b@)[i as int]);
            return false;
        }
        i = i + 1;
    }
    assert(kv(a@) =~= kv(b@));
    true
}

/// A copy of a key value.
pub fn clone_key(k: &KeyValue) -> (r: KeyValue)
    ensures
        r@ == k@,
{
    match k {
        KeyValue::Null => KeyValue::Null,
        KeyValue::Str(s) => KeyValue::Str(s.clone()),
        KeyValue::Float(b) => KeyValue::Float(*b),
        KeyValue::Int(x) => KeyValue::Int(*x),
        KeyValue::UInt(x) => KeyValue::UInt(*x),
        KeyValue::Bool(x) => KeyValue::Bool(*x),
    }
}

/// A copy of a key tuple.
pub fn clone_key_vec(v: &Vec<KeyValue>) -> (r: Vec<KeyValue>)
    ensures
        kv(r@) == kv(v@),
        r.len() == v.len(),
{
    let mut r: Vec<KeyValue> = Vec::with_capacity(v.len());
    let mut i: usize = 0;
    while i < v.len()
        invariant
            0 <= i <= v.len(),
            r.len() == i,
            forall|j: int| 0 <= j < i ==> r@[j]@ == v@[j]@,
        decreases v.len() - i,
    {
        r.push(clone_key(&v[i]));
        i = i + 1;
    }
    assert(kv(r@) =~= kv(v@));
    r
}

/// Rank of a key's variant in the key order: `Null` first, then strings,
/// floats, signed integers, unsigned integers and booleans.
pub open spec fn variant_rank(k: KeyView) -> int {
    match k {
        KeyView::Null => 0,
        KeyView::Str(_) => 1,
        KeyView::Float(_) => 2,
        KeyView::Int(_) => 3,
        KeyView::UInt(_) => 4,
        KeyView::Bool(_) => 5,
    }
}

/// The key order: by variant rank, then by payload (strings by code point,
/// floats by bit pattern, integers and booleans numerically).
pub open spec fn key_lt(a: KeyView, b: KeyView) -> bool {
    if variant_rank(a) != variant_rank(b) {
        variant_rank(a) < variant_rank(b)
    } else {
        match (a, b) {
            (KeyView::Str(x), KeyView::Str(y)) => str_lt(x, y),
            (KeyView::Float(x), KeyView::Float(y)) => x < y,
            (KeyView::Int(x), KeyView::Int(y)) => x < y,
            (KeyView::UInt(x), KeyView::UInt(y)) => x < y,
            (KeyView::Bool(x), KeyView::Bool(y)) => x < y,
            _ => false,
        }
    }
}

/// The order on key tuples: lexicographic in [`key_lt`].
pub open spec fn keys_lt(a: Seq<KeyView>, b: Seq<KeyView>) -> bool {
    lex_lt(a, b, key_order())
}

/// The key order, as a relation.
pub open spec fn key_order() -> spec_fn(KeyView, KeyView) -> bool {
    |a: KeyView, b: KeyView| key_lt(a, b)
}

/// The key order is a strict total order.
pub proof fn lemma_key_lt_strict_total()
    ensures
        strict_total(key_order()),
{
    let l = key_order();
    assert forall|a: KeyView| !#[trigger] l(a, a) by {
        if let KeyView::Str(x) = a {
            lemma_str_lt_facts(x, x, x);
        }
    }
    assert forall|a: KeyView, b: KeyView, c: KeyView| #[trigger] l(a, b) && #[trigger] l(b, c) implies l(a, c) by {
        if let (KeyView::Str(x), KeyView::Str(y), KeyView::Str(z)) = (a, b, c) {
            lemma_str_lt_facts(x, y, z);
        }
    }
    assert forall|a: KeyView, b: KeyView| a != b implies #[trigger] l(a, b) || #[trigger] l(b, a) by {
        if let (KeyView::Str(x), KeyView::Str(y)) = (a, b) {
            lemma_str_lt_facts(x, y, y);
        }
    }
}

/// The order on key tuples: irreflexive, transitive and total.
pub proof fn lemma_keys_lt_facts(a: Seq<KeyView>, b: Seq<KeyView>, c: Seq<KeyView>)
    ensures
        !keys_lt(a, a),
        keys_lt(a, b) && keys_lt(b, c) ==> keys_lt(a, c),
        a != b ==> keys_lt(a, b) || keys_lt(b, a),
{
    lemma_key_lt_strict_total();
    lemma_lex_irreflexive(a, key_order());
    if keys_lt(a, b) && keys_lt(b, c) {
        lemma_lex_transitive(a, b, c, key_order());
    }
    if a != b {
        lemma_lex_total(a, b, key_order());
    }
}

/// Whether key `a` sorts strictly before key `b`.
pub fn key_less(a: &KeyValue, b: &KeyValue) -> (r: bool)
    ensures
        r == key_lt(a@, b@),
{
    match (a, b) {
        (KeyValue::Str(x), KeyValue::Str(y)) => string_less(x, y),
        (KeyValue::Float(x), KeyValue::Float(y)) => *x < *y,
        (KeyValue::Int(x), KeyValue::Int(y)) => *x < *y,
        (KeyValue::UInt(x), KeyValue::UInt(y)) => *x < *y,
        (KeyValue::Bool(x), KeyValue::Bool(y)) => *x < *y,
        _ => rank_of(a) < rank_of(b),
    }
}

fn rank_of(k: &KeyValue) -> (r: u8)
    ensures
        r as int == variant_rank(k@),
{
    match k {
        KeyValue::Null => 0,
        KeyValue::Str(_) => 1,
        KeyValue::Float(_) => 2,
        KeyValue::Int(_) => 3,
        KeyValue::UInt(_) => 4,
        KeyValue::Bool(_) => 5,
    }
}

/// Whether key tuple `a` sorts strictly before key tuple `b`.
pub fn key_vec_less(a: &Vec<KeyValue>, b: &Vec<KeyValue>) -> (r: bool)
    ensures
        r == keys_lt(kv(a@), kv(b@)),
{
    let ghost lt = key_order();
    let mut i: usize = 0;
    assert(kv(a@).skip(0) =~= kv(a@));
    assert(kv(b@).skip(0) =~= kv(b@));
    while i < a.len() && i < b.len()
        invariant
            i <= a.len(),
            i <= b.len(),
            lt == key_order(),
            keys_lt(kv(a@), kv(b@)) == lex_lt(kv(a@).skip(i as int), kv(b@).skip(i as int), lt),
        decreases a.len() - i,
    {
        assert(kv(a@).skip(i as int)[0] == a@[i as int]@);
        assert(kv(b@).skip(i as int)[0] == b@[i as int]@);
        if !key_value_eq(&a[i], &b[i]) {
            return key_less(&a[i], &b[i]);
        }
        assert(kv(a@).skip(i as int).drop_first() =~= kv(a@).skip(i + 1));
        assert(kv(b@).skip(i as int).drop_first() =~= kv(b@).skip(i + 1));
        i = i + 1;
    }
    i == a.len() && i < b.len()
}

/// The key that `groupby_key_at` reads at `row` of `c` for dtype `dt`:
/// `None` when `dt` is not a supported key dtype or is not the column's
/// dtype; otherwise `Null` for a null cell and the widened value for others.
pub open spec fn spec_key_at(c: ColumnData, dt: DType, row: int) -> Option<KeyView> {
    if dt == DType::Other || spec_col_dtype(c) != dt {
        None
    } else {
        Some(match c {
            ColumnData::Utf8(v) => match v@[row] { Some(s) => KeyView::Str(s@), None => KeyView::Null },
            ColumnData::LargeUtf8(v) => match v@[row] { Some(s) => KeyView::Str(s@), None => KeyView::Null },
            ColumnData::Float64(v) => match v@[row] { Some(b) => KeyView::Float(b), None => KeyView::Null },
            ColumnData::Float32(v) => match v@[row] { Some(b) => KeyView::Float(b), None => KeyView::Null },
            ColumnData::Int8(v) => match v@[row] { Some(x) => KeyView::Int(x as i64), None => KeyView::Null },
            ColumnData::Int16(v) => match v@[row] { Some(x) => KeyView::Int(x as i64), None => KeyView::Null },
            ColumnData::Int32(v) => match v@[row] { Some(x) => KeyView::Int(x as i64), None => KeyView::Null },
            ColumnData::Int64(v) => match v@[row] { Some(x) => KeyView::Int(x as i64), None => KeyView::Null },
            ColumnData::UInt8(v) => match v@[row] { Some(x) => KeyView::UInt(x as u64), None => KeyView::Null },
            ColumnData::UInt16(v) => match v@[row] { Some(x) => KeyView::UInt(x as u64), None => KeyView::Null },
            ColumnData::UInt32(v) => match v@[row] { Some(x) => KeyView::UInt(x as u64), None => KeyView::Null },
            ColumnData::UInt64(v) => match v@[row] { Some(x) => KeyView::UInt(x as u64), None => KeyView::Null },
            ColumnData::Boolean(v) => match v@[row] { Some(b) => KeyView::Bool(if b { 1u8 } else { 0u8 }), None => KeyView::Null },
            ColumnData::Other(_) => KeyView::Null,
        })
    }
}

/// Extract the groupby key for one row of a column read as dtype `dt`.
///
/// Signed integers are widened to `KeyValue::Int`, unsigned ones to
/// `KeyValue::UInt`, floats keep their bit pattern, booleans become 0 or 1,
/// and a null cell of any dtype gives `KeyValue::Null`. Returns `None` when
/// `dt` is not a supported key dtype or is not the column's dtype.
pub fn groupby_key_at(c: &ColumnData, dt: DType, row: usize) -> (r: Option<KeyValue>)
    requires
        row < spec_col_len(*c),
    ensures
        match r {
            Some(k) => spec_key_at(*c, dt, row as int) == Some(k@),
            None => spec_key_at(*c, dt, row as int) is None,
        },
{
    if !is_groupby_supported_dtype(dt) || c.dtype() != dt {
        return None;
    }
    Some(match c {
        ColumnData::Utf8(v) => match &v[row] { Some(s) => KeyValue::Str(s.clone()), None => KeyValue::Null },
        ColumnData::LargeUtf8(v) => match &v[row] { Some(s) => KeyValue::Str(s.clone()), None => KeyValue::Null },
        ColumnData::Float64(v) => match v[row] { Some(b) => KeyValue::Float(b), None => KeyValue::Null },
        ColumnData::Float32(v) => match v[row] { Some(b) => KeyValue::Float(b), None => KeyValue::Null },
        ColumnData::Int8(v) => match v[row] { Some(x) => KeyValue::Int(x as i64), None => KeyValue::Null },
        ColumnData::Int16(v) => match v[row] { Some(x) => KeyValue::Int(x as i64), None => KeyValue::Null },
        ColumnData::Int32(v) => match v[row] { Some(x) => KeyValue::Int(x as i64), None => KeyValue::Null },
        ColumnData::Int64(v) => match v[row] { Some(x) => KeyValue::Int(x as i64), None => KeyValue::Null },
        ColumnData::UInt8(v) => match v[row] { Some(x) => KeyValue::UInt(x as u64), None => KeyValue::Null },
        ColumnData::UInt16(v) => match v[row] { Some(x) => KeyValue::UInt(x as u64), None => KeyValue::Null },
        ColumnData::UInt32(v) => match v[row] { Some(x) => KeyValue::UInt(x as u64), None => KeyValue::Null },
        ColumnData::UInt64(v) => match v[row] { Some(x) => KeyValue::UInt(x as u64), None => KeyValue::Null },
        ColumnData::Boolean(v) => match v[row] { Some(b) => KeyValue::Bool(if b { 1u8 } else { 0u8 }), None => KeyValue::Null },
        ColumnData::Other(_) => KeyValue::Null,
    })
}

/// Whether key `k` can be written into an output column of dtype `dt`
/// (a null fits every dtype).
pub open spec fn key_fits(k: KeyView, dt: DType) -> bool {
    match k {
        KeyView::Null => true,
        KeyView::Str(_) => dt == DType::Utf8 || dt == DType::LargeUtf8,
        KeyView::Float(_) => dt == DType::Float64 || dt == DType::Float32,
        KeyView::Int(_) => dt == DType::Int8 || dt == DType::Int16 || dt == DType::Int32 || dt == DType::Int64,
        KeyView::UInt(_) => dt == DType::UInt8 || dt == DType::UInt16 || dt == DType::UInt32 || dt == DType::UInt64,
        KeyView::Bool(_) => dt == DType::Boolean,
    }
}

/// The key that a materialized cell reads back as: integers are narrowed to
/// the output width (and widened again), booleans are `b != 0`.
pub open spec fn narrow_key(k: KeyView, dt: DType) -> KeyView {
    match k {
        KeyView::Int(x) => KeyView::Int(match dt {
            DType::Int8 => (x as i8) as i64,
            DType::Int16 => (x as i16) as i64,
            DType::Int32 => (x as i32) as i64,
            _ => x,
        }),
        KeyView::UInt(x) => KeyView::UInt(match dt {
            DType::UInt8 => (x as u8) as u64,
            DType::UInt16 => (x as u16) as u64,
            DType::UInt32 => (x as u32) as u64,
            _ => x,
        }),
        KeyView::Bool(b) => KeyView::Bool(if b != 0 { 1u8 } else { 0u8 }),
        _ => k,
    }
}

/// A key read from a column fits that column's dtype and is unchanged by
/// narrowing to it: materializing the keys read from a column in its own
/// dtype gives back cells that read as the same keys.
pub proof fn lemma_key_round_trip(c: ColumnData, dt: DType, row: int)
    requires
        0 <= row < spec_col_len(c),
        spec_key_at(c, dt, row) is Some,
    ensures
        key_fits(spec_key_at(c, dt, row)->0, dt),
        narrow_key(spec_key_at(c, dt, row)->0, dt) == spec_key_at(c, dt, row)->0,
{
    match c {
        ColumnData::Int8(v) => {
            if let Some(x) = v@[row] {
                assert(((x as i64) as i8) as i64 == x as i64) by (bit_vector);
            }
        },
        ColumnData::Int16(v) => {
            if let Some(x) = v@[row] {
                assert(((x as i64) as i16) as i64 == x as i64) by (bit_vector);
            }
        },
        ColumnData::Int32(v) => {
            if let Some(x) = v@[row] {
                assert(((x as i64) as i32) as i64 == x as i64) by (bit_vector);
            }
        },
        ColumnData::UInt8(v) => {
            if let Some(x) = v@[row] {
                assert(((x as u64) as u8) as u64 == x as u64) by (bit_vector);
            }
        },
        ColumnData::UInt16(v) => {
            if let Some(x) = v@[row] {
                assert(((x as u64) as u16) as u64 == x as u64) by (bit_vector);
            }
        },
        ColumnData::UInt32(v) => {
            if let Some(x) = v@[row] {
                assert(((x as u64) as u32) as u64 == x as u64) by (bit_vector);
            }
        },
        _ => {},
    }
}

/// A null cell and a non-null cell never share a key: every null cell keys
/// as `Null` and no value does, so a null never joins a group of real values
/// (not a NaN float, nor a zero, `false` or empty string).
pub proof fn lemma_null_key_distinct(c: ColumnData, dt: DType, r1: int, r2: int)
    requires
        0 <= r1 < spec_col_len(c),
        0 <= r2 < spec_col_len(c),
        spec_key_at(c, dt, r1) is Some,
        crate::column::spec_is_null(c, r1),
        !crate::column::spec_is_null(c, r2),
    ensures
        spec_key_at(c, dt, r1) == Some(KeyView::Null),
        spec_key_at(c, dt, r2)->0 != KeyView::Null,
{
}

/// Why a groupby output column cannot be built.
#[derive(Debug, Clone, Copy, PartialEq, Eq, Structural)]
pub enum MaterializeError {
    /// The dtype is not a groupby key dtype.
    UnsupportedDtype(DType),
}

/// Rebuild the output column for groupby dimension `gi` from the per-group
/// key tuples, in the original dtype `dt`. A `Null` key becomes a null cell,
/// so a null-keyed group stays distinct from a real `0`, `false` or empty
/// string. Float cells carry the key's bit pattern.
pub fn materialize_groupby_col(keys: &Vec<Vec<KeyValue>>, gi: usize, dt: DType) -> (r: Result<ColumnData, MaterializeError>)
    requires
        forall|g: int| 0 <= g < keys.len() ==> gi < (#[trigger] keys@[g]).len() && key_fits(keys@[g]@[gi as int]@, dt),
    ensures
        match r {
            Ok(c) => {
                &&& dt != DType::Other
                &&& spec_col_dtype(c) == dt
                &&& spec_col_len(c) == keys.len()
                &&& forall|g: int| 0 <= g < keys.len() ==> spec_key_at(c, dt, g) == Some(narrow_key(#[trigger] keys@[g]@[gi as int]@, dt))
            },
            Err(e) => dt == DType::Other && e == MaterializeError::UnsupportedDtype(dt),
        },
{
    match dt {
        DType::Utf8 => Ok(ColumnData::Utf8(build_str_cells(keys, gi, dt))),
        DType::LargeUtf8 => Ok(ColumnData::LargeUtf8(build_str_cells(keys, gi, dt))),
        DType::Float64 => Ok(ColumnData::Float64(build_float_cells(keys, gi, dt))),
        DType::Float32 => Ok(ColumnData::Float32(build_float_cells(keys, gi, dt))),
        DType::Int8 => Ok(ColumnData::Int8(build_i8_cells(keys, gi, dt))),
        DType::Int16 => Ok(ColumnData::Int16(build_i16_cells(keys, gi, dt))),
        DType::Int32 => Ok(ColumnData::Int32(build_i32_cells(keys, gi, dt))),
        DType::Int64 => Ok(ColumnData::Int64(build_i64_cells(keys, gi, dt))),
        DType::UInt8 => Ok(ColumnData::UInt8(build_u8_cells(keys, gi, dt))),
        DType::UInt16 => Ok(ColumnData::UInt16(build_u16_cells(keys, gi, dt))),
        DType::UInt32 => Ok(ColumnData::UInt32(build_u32_cells(keys, gi, dt))),
        DType::UInt64 => Ok(ColumnData::UInt64(build_u64_cells(keys, gi, dt))),
        DType::Boolean => Ok(ColumnData::Boolean(build_bool_cells(keys, gi, dt))),
        DType::Other => Err(MaterializeError::UnsupportedDtype(dt)),
    }
}

/// An empty (zero-row) output column of dtype `dt`.
pub fn empty_groupby_col(dt: DType) -> (r: Result<ColumnData, MaterializeError>)
    ensures
        match r {
            Ok(c) => dt != DType::Other && spec_col_dtype(c) == dt && spec_col_len(c) == 0,
            Err(e) => dt == DType::Other && e == MaterializeError::UnsupportedDtype(dt),
        },
{
    let none: Vec<Vec<KeyValue>> = Vec::new();
    materialize_groupby_col(&none, 0, dt)
}

/// Output groupby fields are always nullable: a null-keyed group is written
/// as a null cell.
pub fn groupby_field_nullable() -> (r: bool)
    ensures
        r,
{
    true
}


fn build_str_cells(keys: &Vec<Vec<KeyValue>>, gi: usize, dt: DType) -> (r: Vec<Option<String>>)
    requires
        dt == DType::Utf8 || dt == DType::LargeUtf8,
        forall|g: int| 0 <= g < keys.len() ==> gi < (#[trigger] keys@[g]).len() && key_fits(keys@[g]@[gi as int]@, dt),
    ensures
        r.len() == keys.len(),
        forall|g: int| 0 <= g < keys.len() ==> match #[trigger] keys@[g]@[gi as int]@ {
            KeyView::Null => r@[g] is None,
            KeyView::Str(x) => r@[g] is Some && r@[g]->0@ == x,
            _ => false,
        },
{
    let mut r: Vec<Option<String>> = Vec::with_capacity(keys.len());
    let mut g: usize = 0;
    while g < keys.len()
        invariant
            dt == DType::Utf8 || dt == DType::LargeUtf8,
            forall|h: int| 0 <= h < keys.len() ==> gi < (#[trigger] keys@[h]).len() && key_fits(keys@[h]@[gi as int]@, dt),
            0 <= g <= keys.len(),
            r.len() == g,
            forall|h: int| 0 <= h < g ==> match #[trigger] keys@[h]@[gi as int]@ {
                KeyView::Null => r@[h] is None,
                KeyView::Str(x) => r@[h] is Some && r@[h]->0@ == x,
                _ => false,
            },
        decreases keys.len() - g,
    {
        let cell = match &keys[g][gi] {
            KeyValue::Null => None,
            KeyValue::Str(x) => Some(x.clone()),
            _ => {
                assert(false);
                None
            }
        };
        r.push(cell);
        g = g + 1;
    }
    r
}


fn build_float_cells(keys: &Vec<Vec<KeyValue>>, gi: usize, dt: DType) -> (r: Vec<Option<u64>>)
    requires
        dt == DType::Float64 || dt == DType::Float32,
        forall|g: int| 0 <= g < keys.len() ==> gi < (#[trigger] keys@[g]).len() && key_fits(keys@[g]@[gi as int]@, dt),
    ensures
        r.len() == keys.len(),
        forall|g: int| 0 <= g < keys.len() ==> match #[trigger] keys@[g]@[gi as int]@ {
            KeyView::Null => r@[g] is None,
            KeyView::Float(x) => r@[g] == Some(x),
            _ => false,
        },
{
    let mut r: Vec<Option<u64>> = Vec::with_capacity(keys.len());
    let mut g: usize = 0;
    while g < keys.len()
        invariant
            dt == DType::Float64 || dt == DType::Float32,
            forall|h: int| 0 <= h < keys.len() ==> gi < (#[trigger] keys@[h]).len() && key_fits(keys@[h]@[gi as int]@, dt),
            0 <= g <= keys.len(),
            r.len() == g,
            forall|h: int| 0 <= h < g ==> match #[trigger] keys@[h]@[gi as int]@ {
                KeyView::Null => r@[h] is None,
                KeyView::Float(x) => r@[h] == Some(x),
                _ => false,
            },
        decreases keys.len() - g,
    {
        let cell = match &keys[g][gi] {
            KeyValue::Null => None,
            KeyValue::Float(x) => Some(*x),
            _ => {
                assert(false);
                None
            }
        };
        r.push(cell);
        g = g + 1;
    }
    r
}


fn build_i8_cells(keys: &Vec<Vec<KeyValue>>, gi: usize, dt: DType) -> (r: Vec<Option<i8>>)
    requires
        dt == DType::Int8,
        forall|g: int| 0 <= g < keys.len() ==> gi < (#[trigger] keys@[g]).len() && key_fits(keys@[g]@[gi as int]@, dt),
    ensures
        r.len() == keys.len(),
        forall|g: int| 0 <= g < keys.len() ==> match #[trigger] keys@[g]@[gi as int]@ {
            KeyView::Null => r@[g] is None,
            KeyView::Int(x) => r@[g] == Some(x as i8),
            _ => false,
        },
{
    let mut r: Vec<Option<i8>> = Vec::with_capacity(keys.len());
    let mut g: usize = 0;
    while g < keys.len()
        invariant
            dt == DType::Int8,
            forall|h: int| 0 <= h < keys.len() ==> gi < (#[trigger] keys@[h]).len() && key_fits(keys@[h]@[gi as int]@, dt),
            0 <= g <= keys.len(),
            r.len() == g,
            forall|h: int| 0 <= h < g ==> match #[trigger] keys@[h]@[gi as int]@ {
                KeyView::Null => r@[h] is None,
                KeyView::Int(x) => r@[h] == Some(x as i8),
                _ => false,
            },
        decreases keys.len() - g,
    {
        let cell = match &keys[g][gi] {
            KeyValue::Null => None,
            KeyValue::Int(x) => Some(*x as i8),
            _ => {
                assert(false);
                None
            }
        };
        r.push(cell);
        g = g + 1;
    }
    r
}


fn build_i16_cells(keys: &Vec<Vec<KeyValue>>, gi: usize, dt: DType) -> (r: Vec<Option<i16>>)
    requires
        dt == DType::Int16,
        forall|g: int| 0 <= g < keys.len() ==> gi < (#[trigger] keys@[g]).len() && key_fits(keys@[g]@[gi as int]@, dt),
    ensures
        r.len() == keys.len(),
        forall|g: int| 0 <= g < keys.len() ==> match #[trigger] keys@[g]@[gi as int]@ {
            KeyView::Null => r@[g] is None,
            KeyView::Int(x) => r@[g] == Some(x as i16),
            _ => false,
        },
{
    let mut r: Vec<Option<i16>> = Vec::with_capacity(keys.len());
    let mut g: usize = 0;
    while g < keys.len()
        invariant
            dt == DType::Int16,
            forall|h: int| 0 <= h < keys.len() ==> gi < (#[trigger] keys@[h]).len() && key_fits(keys@[h]@[gi as int]@, dt),
            0 <= g <= keys.len(),
            r.len() == g,
            forall|h: int| 0 <= h < g ==> match #[trigger] keys@[h]@[gi as int]@ {
                KeyView::Null => r@[h] is None,
                KeyView::Int(x) => r@[h] == Some(x as i16),
                _ => false,
            },
        decreases keys.len() - g,
    {
        let cell = match &keys[g][gi] {
            KeyValue::Null => None,
            KeyValue::Int(x) => Some(*x as i16),
            _ => {
                assert(false);
                None
            }
        };
        r.push(cell);
        g = g + 1;
    }
    r
}


fn build_i32_cells(keys: &Vec<Vec<KeyValue>>, gi: usize, dt: DType) -> (r: Vec<Option<i32>>)
    requires
        dt == DType::Int32,
        forall|g: int| 0 <= g < keys.len() ==> gi < (#[trigger] keys@[g]).len() && key_fits(keys@[g]@[gi as int]@, dt),
    ensures
        r.len() == keys.len(),
        forall|g: int| 0 <= g < keys.len() ==> match #[trigger] keys@[g]@[gi as int]@ {
            KeyView::Null => r@[g] is None,
            KeyView::Int(x) => r@[g] == Some(x as i32),
            _ => false,
        },
{
    let mut r: Vec<Option<i32>> = Vec::with_capacity(keys.len());
    let mut g: usize = 0;
    while g < keys.len()
        invariant
            dt == DType::Int32,
            forall|h: int| 0 <= h < keys.len() ==> gi < (#[trigger] keys@[h]).len() && key_fits(keys@[h]@[gi as int]@, dt),
            0 <= g <= keys.len(),
            r.len() == g,
            forall|h: int| 0 <= h < g ==> match #[trigger] keys@[h]@[gi as int]@ {
                KeyView::Null => r@[h] is None,
                KeyView::Int(x) => r@[h] == Some(x as i32),
                _ => false,
            },
        decreases keys.len() - g,
    {
        let cell = match &keys[g][gi] {
            KeyValue::Null => None,
            KeyValue::Int(x) => Some(*x as i32),
            _ => {
                assert(false);
                None
            }
        };
        r.push(cell);
        g = g + 1;
    }
    r
}


fn build_i64_cells(keys: &Vec<Vec<KeyValue>>, gi: usize, dt: DType) -> (r: Vec<Option<i64>>)
    requires
        dt == DType::Int64,
        forall|g: int| 0 <= g < keys.len() ==> gi < (#[trigger] keys@[g]).len() && key_fits(keys@[g]@[gi as int]@, dt),
    ensures
        r.len() == keys.len(),
        forall|g: int| 0 <= g < keys.len() ==> match #[trigger] keys@[g]@[gi as int]@ {
            KeyView::Null => r@[g] is None,
            KeyView::Int(x) => r@[g] == Some(x as i64),
            _ => false,
        },
{
    let mut r: Vec<Option<i64>> = Vec::with_capacity(keys.len());
    let mut g: usize = 0;
    while g < keys.len()
        invariant
            dt == DType::Int64,
            forall|h: int| 0 <= h < keys.len() ==> gi < (#[trigger] keys@[h]).len() && key_fits(keys@[h]@[gi as int]@, dt),
            0 <= g <= keys.len(),
            r.len() == g,
            forall|h: int| 0 <= h < g ==> match #[trigger] keys@[h]@[gi as int]@ {
                KeyView::Null => r@[h] is None,
                KeyView::Int(x) => r@[h] == Some(x as i64),
                _ => false,
            },
        decreases keys.len() - g,
    {
        let cell = match &keys[g][gi] {
            KeyValue::Null => None,
            KeyValue::Int(x) => Some(*x as i64),
            _ => {
                assert(false);
                None
            }
        };
        r.push(cell);
        g = g + 1;
    }
    r
}


fn build_u8_cells(keys: &Vec<Vec<KeyValue>>, gi: usize, dt: DType) -> (r: Vec<Option<u8>>)
    requires
        dt == DType::UInt8,
        forall|g: int| 0 <= g < keys.len() ==> gi < (#[trigger] keys@[g]).len() && key_fits(keys@[g]@[gi as int]@, dt),
    ensures
        r.len() == keys.len(),
        forall|g: int| 0 <= g < keys.len() ==> match #[trigger] keys@[g]@[gi as int]@ {
            KeyView::Null => r@[g] is None,
            KeyView::UInt(x) => r@[g] == Some(x as u8),
            _ => false,
        },
{
    let mut r: Vec<Option<u8>> = Vec::with_capacity(keys.len());
    let mut g: usize = 0;
    while g < keys.len()
        invariant
            dt == DType::UInt8,
            forall|h: int| 0 <= h < keys.len() ==> gi < (#[trigger] keys@[h]).len() && key_fits(keys@[h]@[gi as int]@, dt),
            0 <= g <= keys.len(),
            r.len() == g,
            forall|h: int| 0 <= h < g ==> match #[trigger] keys@[h]@[gi as int]@ {
                KeyView::Null => r@[h] is None,
                KeyView::UInt(x) => r@[h] == Some(x as u8),
                _ => false,
            },
        decreases keys.len() - g,
    {
        let cell = match &keys[g][gi] {
            KeyValue::Null => None,
            KeyValue::UInt(x) => Some(*x as u8),
            _ => {
                assert(false);
                None
            }
        };
        r.push(cell);
        g = g + 1;
    }
    r
}


fn build_u16_cells(keys: &Vec<Vec<KeyValue>>, gi: usize, dt: DType) -> (r: Vec<Option<u16>>)
    requires
        dt == DType::UInt16,
        forall|g: int| 0 <= g < keys.len() ==> gi < (#[trigger] keys@[g]).len() && key_fits(keys@[g]@[gi as int]@, dt),
    ensures
        r.len() == keys.len(),
        forall|g: int| 0 <= g < keys.len() ==> match #[trigger] keys@[g]@[gi as int]@ {
            KeyView::Null => r@[g] is None,
            KeyView::UInt(x) => r@[g] == Some(x as u16),
            _ => false,
        },
{
    let mut r: Vec<Option<u16>> = Vec::with_capacity(keys.len());
    let mut g: usize = 0;
    while g < keys.len()
        invariant
            dt == DType::UInt16,
            forall|h: int| 0 <= h < keys.len() ==> gi < (#[trigger] keys@[h]).len() && key_fits(keys@[h]@[gi as int]@, dt),
            0 <= g <= keys.len(),
            r.len() == g,
            forall|h: int| 0 <= h < g ==> match #[trigger] keys@[h]@[gi as int]@ {
                KeyView::Null => r@[h] is None,
                KeyView::UInt(x) => r@[h] == Some(x as u16),
                _ => false,
            },
        decreases keys.len() - g,
    {
        let cell = match &keys[g][gi] {
            KeyValue::Null => None,
            KeyValue::UInt(x) => Some(*x as u16),
            _ => {
                assert(false);
                None
            }
        };
        r.push(cell);
        g = g + 1;
    }
    r
}


fn build_u32_cells(keys: &Vec<Vec<KeyValue>>, gi: usize, dt: DType) -> (r: Vec<Option<u32>>)
    requires
        dt == DType::UInt32,
        forall|g: int| 0 <= g < keys.len() ==> gi < (#[trigger] keys@[g]).len() && key_fits(keys@[g]@[gi as int]@, dt),
    ensures
        r.len() == keys.len(),
        forall|g: int| 0 <= g < keys.len() ==> match #[trigger] keys@[g]@[gi as int]@ {
            KeyView::Null => r@[g] is None,
            KeyView::UInt(x) => r@[g] == Some(x as u32),
            _ => false,
        },
{
    let mut r: Vec<Option<u32>> = Vec::with_capacity(keys.len());
    let mut g: usize = 0;
    while g < keys.len()
        invariant
            dt == DType::UInt32,
            forall|h: int| 0 <= h < keys.len() ==> gi < (#[trigger] keys@[h]).len() && key_fits(keys@[h]@[gi as int]@, dt),
            0 <= g <= keys.len(),
            r.len() == g,
            forall|h: int| 0 <= h < g ==> match #[trigger] keys@[h]@[gi as int]@ {
                KeyView::Null => r@[h] is None,
                KeyView::UInt(x) => r@[h] == Some(x as u32),
                _ => false,
            },
        decreases keys.len() - g,
    {
        let cell = match &keys[g][gi] {
            KeyValue::Null => None,
            KeyValue::UInt(x) => Some(*x as u32),
            _ => {
                assert(false);
                None
            }
        };
        r.push(cell);
        g = g + 1;
    }
    r
}


fn build_u64_cells(keys: &Vec<Vec<KeyValue>>, gi: usize, dt: DType) -> (r: Vec<Option<u64>>)
    requires
        dt == DType::UInt64,
        forall|g: int| 0 <= g < keys.len() ==> gi < (#[trigger] keys@[g]).len() && key_fits(keys@[g]@[gi as int]@, dt),
    ensures
        r.len() == keys.len(),
        forall|g: int| 0 <= g < keys.len() ==> match #[trigger] keys@[g]@[gi as int]@ {
            KeyView::Null => r@[g] is None,
            KeyView::UInt(x) => r@[g] == Some(x as u64),
            _ => false,
        },
{
    let mut r: Vec<Option<u64>> = Vec::with_capacity(keys.len());
    let mut g: usize = 0;
    while g < keys.len()
        invariant
            dt == DType::UInt64,
            forall|h: int| 0 <= h < keys.len() ==> gi < (#[trigger] keys@[h]).len() && key_fits(keys@[h]@[gi as int]@, dt),
            0 <= g <= keys.len(),
            r.len() == g,
            forall|h: int| 0 <= h < g ==> match #[trigger] keys@[h]@[gi as int]@ {
                KeyView::Null => r@[h] is None,
                KeyView::UInt(x) => r@[h] == Some(x as u64),
                _ => false,
            },
        decreases keys.len() - g,
    {
        let cell = match &keys[g][gi] {
            KeyValue::Null => None,
            KeyValue::UInt(x) => Some(*x as u64),
            _ => {
                assert(false);
                None
            }
        };
        r.push(cell);
        g = g + 1;
    }
    r
}


fn build_bool_cells(keys: &Vec<Vec<KeyValue>>, gi: usize, dt: DType) -> (r: Vec<Option<bool>>)
    requires
        dt == DType::Boolean,
        forall|g: int| 0 <= g < keys.len() ==> gi < (#[trigger] keys@[g]).len() && key_fits(keys@[g]@[gi as int]@, dt),
    ensures
        r.len() == keys.len(),
        forall|g: int| 0 <= g < keys.len() ==> match #[trigger] keys@[g]@[gi as int]@ {
            KeyView::Null => r@[g] is None,
            KeyView::Bool(x) => r@[g] == Some(x != 0),
            _ => false,
        },
{
    let mut r: Vec<Option<bool>> = Vec::with_capacity(keys.len());
    let mut g: usize = 0;
    while g < keys.len()
        invariant
            dt == DType::Boolean,
            forall|h: int| 0 <= h < keys.len() ==> gi < (#[trigger] keys@[h]).len() && key_fits(keys@[h]@[gi as int]@, dt),
            0 <= g <= keys.len(),
            r.len() == g,
            forall|h: int| 0 <= h < g ==> match #[trigger] keys@[h]@[gi as int]@ {
                KeyView::Null => r@[h] is None,
                KeyView::Bool(x) => r@[h] == Some(x != 0),
                _ => false,
            },
        decreases keys.len() - g,
    {
        let cell = match &keys[g][gi] {
            KeyValue::Null => None,
            KeyValue::Bool(x) => Some(*x != 0),
            _ => {
                assert(false);
                None
            }
        };
        r.push(cell);
        g = g + 1;
    }
    r
}


/// A groupby argument as given: absent (or null), one column name, or a
/// list of column names.
#[derive(Debug, Clone)]
pub enum GroupbyArg {
    Absent,
    One(String),
    Many(Vec<String>),
}

/// The groupby columns that an argument names: none for an absent one,
/// the single name, or the list as given.
pub fn normalize_groupby(arg: GroupbyArg) -> (r: Vec<String>)
    ensures
        match arg {
            GroupbyArg::Absent => r@.len() == 0,
            GroupbyArg::One(s) => r@.len() == 1 && r@[0] == s,
            GroupbyArg::Many(v) => r@ == v@,
        },
{
    match arg {
        GroupbyArg::Absent => Vec::new(),
        GroupbyArg::One(s) => {
            let mut v: Vec<String> = Vec::new();
            v.push(s);
            v
        },
        GroupbyArg::Many(v) => v,
    }
}

} // verus!
