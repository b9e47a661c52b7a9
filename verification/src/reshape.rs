//! Reshaping rows: flattening list or `;`-delimited cells into one row per
//! element, and folding columns into key/value rows.

use vstd::prelude::*;
use crate::column::{index_of, spec_index_of};
use crate::dtype::{DType, UnifyError, spec_unify, unify_dtypes};

verus! {

/// Pieces of `s` between `sep` characters, with `cur` the piece read so far.
pub open spec fn split_acc(s: Seq<char>, sep: char, cur: Seq<char>) -> Seq<Seq<char>>
    decreases s.len(),
{
    if s.len() == 0 {
        seq![cur]
    } else if s[0] == sep {
        seq![cur] + split_acc(s.drop_first(), sep, Seq::empty())
    } else {
        split_acc(s.drop_first(), sep, cur.push(s[0]))
    }
}

/// The pieces of `s` between `sep` characters (one more than the number of
/// separators; the empty string gives one empty piece).
pub open spec fn split_on(s: Seq<char>, sep: char) -> Seq<Seq<char>> {
    split_acc(s, sep, Seq::empty())
}

/// The number of pieces does not depend on the piece read so far.
pub proof fn lemma_split_acc_len(s: Seq<char>, sep: char, c1: Seq<char>, c2: Seq<char>)
    ensures
        split_acc(s, sep, c1).len() == split_acc(s, sep, c2).len(),
        split_acc(s, sep, c1).len() >= 1,
    decreases s.len(),
{
    if s.len() > 0 {
        if s[0] == sep {
            lemma_split_acc_len(s.drop_first(), sep, Seq::empty(), Seq::empty());
        } else {
            lemma_split_acc_len(s.drop_first(), sep, c1.push(s[0]), c2.push(s[0]));
        }
    }
}

/// Number of `;`-separated pieces of `s`.
pub fn count_pieces(s: &str) -> (r: usize)
    requires
        s@.len() < usize::MAX,
    ensures
        r == split_on(s@, ';').len(),
{
    let n = s.unicode_len();
    let mut count: usize = 1;
    let mut i: usize = 0;
    assert(s@.skip(0) =~= s@);
    while i < n
        invariant
            n == s@.len(),
            n < usize::MAX,
            0 <= i <= n,
            1 <= count <= i + 1,
            split_on(s@, ';').len() == (count - 1) + split_acc(s@.skip(i as int), ';', Seq::empty()).len(),
        decreases n - i,
    {
        let c = s.get_char(i);
        let ghost t = s@.skip(i as int);
        assert(t[0] == c);
        assert(t.drop_first() =~= s@.skip(i + 1));
        if c == ';' {
            count = count + 1;
        } else {
            proof {
                lemma_split_acc_len(t.drop_first(), ';', seq![c], Seq::empty());
            }
        }
        i = i + 1;
    }
    count
}

/// Whether `c` is whitespace in the sense of the Unicode `White_Space`
/// property, which `char::is_whitespace` and `str::trim` use.
pub open spec fn is_white_space(c: char) -> bool {
    ('\u{9}' <= c && c <= '\u{d}') || c == ' ' || c == '\u{85}' || c == '\u{a0}' || c == '\u{1680}'
        || ('\u{2000}' <= c && c <= '\u{200a}') || c == '\u{2028}' || c == '\u{2029}' || c == '\u{202f}'
        || c == '\u{205f}' || c == '\u{3000}'
}

fn white_space(c: char) -> (r: bool)
    ensures
        r == is_white_space(c),
{
    ('\u{9}' <= c && c <= '\u{d}') || c == ' ' || c == '\u{85}' || c == '\u{a0}' || c == '\u{1680}'
        || ('\u{2000}' <= c && c <= '\u{200a}') || c == '\u{2028}' || c == '\u{2029}' || c == '\u{202f}'
        || c == '\u{205f}' || c == '\u{3000}'
}

/// `s` without its leading whitespace.
pub open spec fn trim_start(s: Seq<char>) -> Seq<char>
    decreases s.len(),
{
    if s.len() > 0 && is_white_space(s[0]) { trim_start(s.drop_first()) } else { s }
}

/// `s` without its trailing whitespace.
pub open spec fn trim_end(s: Seq<char>) -> Seq<char>
    decreases s.len(),
{
    if s.len() > 0 && is_white_space(s.last()) { trim_end(s.drop_last()) } else { s }
}

/// `s` with its leading and trailing whitespace removed, as `str::trim`
/// gives it.
pub open spec fn spec_trim(s: Seq<char>) -> Seq<char> {
    trim_end(trim_start(s))
}

/// `s` with its leading and trailing whitespace removed.
fn trimmed(s: &str) -> (r: String)
    ensures
        r@ == spec_trim(s@),
{
    let n = s.unicode_len();
    let mut lo: usize = 0;
    assert(s@.skip(0) =~= s@);
    while lo < n && white_space(s.get_char(lo))
        invariant
            n == s@.len(),
            0 <= lo <= n,
            trim_start(s@) == trim_start(s@.skip(lo as int)),
        decreases n - lo,
    {
        proof {
            assert(s@.skip(lo as int).drop_first() =~= s@.skip(lo + 1));
        }
        lo = lo + 1;
    }
    proof {
        if lo < n {
            assert(!is_white_space(s@.skip(lo as int)[0]));
        } else {
            assert(s@.skip(lo as int).len() == 0);
        }
        assert(trim_start(s@) == s@.skip(lo as int));
    }
    let mut hi: usize = n;
    while hi > lo && white_space(s.get_char(hi - 1))
        invariant
            n == s@.len(),
            0 <= lo <= hi <= n,
            trim_start(s@) == s@.skip(lo as int),
            spec_trim(s@) == trim_end(s@.subrange(lo as int, hi as int)),
        decreases hi - lo,
    {
        proof {
            assert(s@.subrange(lo as int, hi as int).drop_last() =~= s@.subrange(lo as int, hi - 1));
            assert(s@.subrange(lo as int, hi as int).last() == s@[hi - 1]);
        }
        hi = hi - 1;
    }
    proof {
        assert(s@.skip(lo as int) =~= s@.subrange(lo as int, n as int));
        if hi > lo {
            assert(s@.subrange(lo as int, hi as int).last() == s@[hi - 1]);
        }
        assert(spec_trim(s@) == s@.subrange(lo as int, hi as int));
    }
    String::from_str(s.substring_char(lo, hi))
}

/// The trimmed pieces of a `;`-delimited cell.
pub fn split_trimmed(s: &str) -> (r: Vec<String>)
    ensures
        r.len() == split_on(s@, ';').len(),
        forall|k: int| 0 <= k < r.len() ==> (#[trigger] r@[k])@ == spec_trim(split_on(s@, ';')[k]),
{
    let n = s.unicode_len();
    let mut out: Vec<String> = Vec::new();
    let ghost mut done: Seq<Seq<char>> = Seq::empty();
    let mut start: usize = 0;
    let mut i: usize = 0;
    assert(s@.skip(0) =~= s@);
    assert(s@.subrange(0, 0) =~= Seq::<char>::empty());
    while i < n
        invariant
            n == s@.len(),
            0 <= start <= i <= n,
            split_on(s@, ';') == done + split_acc(s@.skip(i as int), ';', s@.subrange(start as int, i as int)),
            out.len() == done.len(),
            forall|k: int| 0 <= k < out.len() ==> (#[trigger] out@[k])@ == spec_trim(done[k]),
        decreases n - i,
    {
        let c = s.get_char(i);
        let ghost t = s@.skip(i as int);
        assert(t[0] == c);
        assert(t.drop_first() =~= s@.skip(i + 1));
        if c == ';' {
            let piece = s.substring_char(start, i);
            out.push(trimmed(piece));
            proof {
                let cur = s@.subrange(start as int, i as int);
                assert(split_acc(t, ';', cur) == seq![cur] + split_acc(t.drop_first(), ';', Seq::empty()));
                assert(done + split_acc(t, ';', cur) =~= done.push(cur) + split_acc(t.drop_first(), ';', Seq::empty()));
                done = done.push(cur);
                assert(s@.subrange(i + 1, i + 1) =~= Seq::<char>::empty());
            }
            start = i + 1;
        } else {
            proof {
                assert(s@.subrange(start as int, i as int).push(c) =~= s@.subrange(start as int, i + 1));
            }
        }
        i = i + 1;
    }
    let piece = s.substring_char(start, n);
    out.push(trimmed(piece));
    proof {
        assert(s@.skip(n as int) =~= Seq::<char>::empty());
        done = done.push(s@.subrange(start as int, n as int));
    }
    assert(split_on(s@, ';') =~= done);
    out
}

/// Elements per row of a column being flattened.
#[derive(Debug, Clone)]
pub enum FlattenSource {
    /// A list column: each row's list length, `None` for a null list.
    List(Vec<Option<usize>>),
    /// A string column split at `;`.
    Utf8(Vec<Option<String>>),
    /// Any other column, read as one element per row.
    Scalar(usize),
}

/// Output rows per input row: a list's length (0 for a null list); the
/// number of `;`-pieces of a string (1 for a null or empty string); 1 for
/// any other column.
pub open spec fn spec_row_length(src: FlattenSource, i: int) -> int {
    match src {
        FlattenSource::List(v) => match v@[i] { Some(n) => n as int, None => 0 },
        FlattenSource::Utf8(v) => match v@[i] {
            Some(s) => if s@.len() == 0 { 1 } else { split_on(s@, ';').len() as int },
            None => 1,
        },
        FlattenSource::Scalar(_) => 1,
    }
}

/// Number of rows of a flatten source.
pub open spec fn spec_source_len(src: FlattenSource) -> int {
    match src {
        FlattenSource::List(v) => v.len() as int,
        FlattenSource::Utf8(v) => v.len() as int,
        FlattenSource::Scalar(n) => n as int,
    }
}

/// Every string cell is shorter than `usize::MAX` characters.
pub open spec fn strings_fit(src: FlattenSource) -> bool {
    match src {
        FlattenSource::Utf8(v) => forall|i: int| 0 <= i < v.len() ==> match #[trigger] v@[i] {
            Some(s) => s@.len() < usize::MAX,
            None => true,
        },
        _ => true,
    }
}

/// The number of output rows of each input row.
pub fn compute_row_lengths(src: &FlattenSource, n_rows: usize) -> (r: Vec<usize>)
    requires
        spec_source_len(*src) == n_rows,
        strings_fit(*src),
    ensures
        r.len() == n_rows,
        forall|i: int| 0 <= i < n_rows ==> r@[i] as int == spec_row_length(*src, i),
{
    let mut out: Vec<usize> = Vec::with_capacity(n_rows);
    let mut i: usize = 0;
    while i < n_rows
        invariant
            spec_source_len(*src) == n_rows,
            strings_fit(*src),
            0 <= i <= n_rows,
            out.len() == i,
            forall|k: int| 0 <= k < i ==> out@[k] as int == spec_row_length(*src, k),
        decreases n_rows - i,
    {
        let len: usize = match src {
            FlattenSource::List(v) => match v[i] { Some(n) => n, None => 0 },
            FlattenSource::Utf8(v) => match &v[i] {
                Some(s) => if s.as_str().unicode_len() == 0 { 1 } else { count_pieces(s.as_str()) },
                None => 1,
            },
            FlattenSource::Scalar(_) => 1,
        };
        out.push(len);
        i = i + 1;
    }
    out
}

/// Sum of lengths.
pub open spec fn spec_total(lengths: Seq<usize>) -> int
    decreases lengths.len(),
{
    if lengths.len() == 0 { 0 } else { spec_total(lengths.drop_last()) + lengths.last() }
}

/// Each value repeated as many times as its length says, in order.
pub open spec fn spec_repeat<T>(values: Seq<T>, lengths: Seq<usize>) -> Seq<T>
    decreases lengths.len(),
{
    if lengths.len() == 0 || values.len() == 0 {
        Seq::empty()
    } else {
        spec_repeat(values.drop_last(), lengths.drop_last()) + Seq::new(lengths.last() as nat, |k: int| values.last())
    }
}

proof fn lemma_total_prefix(lengths: Seq<usize>, i: int)
    requires
        0 <= i <= lengths.len(),
    ensures
        spec_total(lengths.take(i)) <= spec_total(lengths),
        spec_total(lengths.take(i)) >= 0,
    decreases lengths.len() - i,
{
    lemma_total_nonneg(lengths.take(i));
    if i < lengths.len() {
        lemma_total_prefix(lengths, i + 1);
        assert(lengths.take(i + 1).drop_last() =~= lengths.take(i));
    } else {
        assert(lengths.take(i) =~= lengths);
        lemma_total_nonneg(lengths);
    }
}

proof fn lemma_total_nonneg(lengths: Seq<usize>)
    ensures
        spec_total(lengths) >= 0,
    decreases lengths.len(),
{
    if lengths.len() > 0 {
        lemma_total_nonneg(lengths.drop_last());
    }
}

/// Repeat each row's value as many times as its output length.
pub fn repeat_by_lengths<T: Copy>(values: &Vec<T>, lengths: &Vec<usize>) -> (r: Vec<T>)
    requires
        values.len() == lengths.len(),
        spec_total(lengths@) <= usize::MAX,
    ensures
        r@ == spec_repeat(values@, lengths@),
        r.len() == spec_total(lengths@),
{
    let mut out: Vec<T> = Vec::new();
    let mut i: usize = 0;
    while i < lengths.len()
        invariant
            values.len() == lengths.len(),
            spec_total(lengths@) <= usize::MAX,
            0 <= i <= lengths.len(),
            out@ == spec_repeat(values@.take(i as int), lengths@.take(i as int)),
            out.len() == spec_total(lengths@.take(i as int)),
        decreases lengths.len() - i,
    {
        proof {
            lemma_total_prefix(lengths@, i + 1);
            assert(lengths@.take(i + 1).drop_last() =~= lengths@.take(i as int));
            assert(values@.take(i + 1).drop_last() =~= values@.take(i as int));
        }
        let v = values[i];
        let len = lengths[i];
        let ghost before = out@;
        let mut k: usize = 0;
        while k < len
            invariant
                out@ == before + Seq::new(k as nat, |q: int| v),
                out.len() == before.len() + k,
                before.len() + len <= usize::MAX,
                k <= len,
            decreases len - k,
        {
            out.push(v);
            k = k + 1;
            assert(out@ =~= before + Seq::new(k as nat, |q: int| v));
        }
        assert(out@ =~= spec_repeat(values@.take(i + 1), lengths@.take(i + 1)));
        i = i + 1;
    }
    assert(values@.take(i as int) =~= values@);
    assert(lengths@.take(i as int) =~= lengths@);
    out
}

/// Repeat each row's string (or null) as many times as its output length.
pub fn repeat_strings_by_lengths(values: &Vec<Option<String>>, lengths: &Vec<usize>) -> (r: Vec<Option<String>>)
    requires
        values.len() == lengths.len(),
        spec_total(lengths@) <= usize::MAX,
    ensures
        r@ == spec_repeat(values@, lengths@),
        r.len() == spec_total(lengths@),
{
    let mut out: Vec<Option<String>> = Vec::new();
    let mut i: usize = 0;
    while i < lengths.len()
        invariant
            values.len() == lengths.len(),
            spec_total(lengths@) <= usize::MAX,
            0 <= i <= lengths.len(),
            out@ == spec_repeat(values@.take(i as int), lengths@.take(i as int)),
            out.len() == spec_total(lengths@.take(i as int)),
        decreases lengths.len() - i,
    {
        proof {
            lemma_total_prefix(lengths@, i + 1);
            assert(lengths@.take(i + 1).drop_last() =~= lengths@.take(i as int));
            assert(values@.take(i + 1).drop_last() =~= values@.take(i as int));
        }
        let len = lengths[i];
        let ghost v = values@[i as int];
        let ghost before = out@;
        let mut k: usize = 0;
        while k < len
            invariant
                v == values@[i as int],
                i < values.len(),
                out@ == before + Seq::new(k as nat, |q: int| v),
                out.len() == before.len() + k,
                before.len() + len <= usize::MAX,
                k <= len,
            decreases len - k,
        {
            let c = match &values[i] {
                Some(s) => Some(s.clone()),
                None => None,
            };
            out.push(c);
            k = k + 1;
            assert(out@ =~= before + Seq::new(k as nat, |q: int| v));
        }
        assert(out@ =~= spec_repeat(values@.take(i + 1), lengths@.take(i + 1)));
        i = i + 1;
    }
    assert(values@.take(i as int) =~= values@);
    assert(lengths@.take(i as int) =~= lengths@);
    out
}

/// Views of optional strings.
pub open spec fn opt_str_view(o: Option<String>) -> Option<Seq<char>> {
    match o {
        Some(s) => Some(s@),
        None => None,
    }
}

/// The flattened output of one string cell: one null for a null or empty
/// string, else its trimmed `;`-pieces.
pub open spec fn spec_flatten_cell(o: Option<String>) -> Seq<Option<Seq<char>>> {
    match o {
        Some(s) => if s@.len() == 0 {
            seq![None]
        } else {
            split_on(s@, ';').map_values(|p: Seq<char>| Some(spec_trim(p)))
        },
        None => seq![None],
    }
}

/// The flattened output of a string column, cell after cell.
pub open spec fn spec_flatten_strings(v: Seq<Option<String>>) -> Seq<Option<Seq<char>>>
    decreases v.len(),
{
    if v.len() == 0 {
        Seq::empty()
    } else {
        spec_flatten_strings(v.drop_last()) + spec_flatten_cell(v.last())
    }
}

/// Flatten a `;`-delimited string column: a null or empty cell gives one
/// null; any other cell gives its trimmed pieces.
pub fn flatten_strings(values: &Vec<Option<String>>) -> (r: Vec<Option<String>>)
    ensures
        r@.map_values(|o: Option<String>| opt_str_view(o)) == spec_flatten_strings(values@),
{
    let mut out: Vec<Option<String>> = Vec::new();
    let mut i: usize = 0;
    while i < values.len()
        invariant
            0 <= i <= values.len(),
            out@.map_values(|o: Option<String>| opt_str_view(o)) == spec_flatten_strings(values@.take(i as int)),
        decreases values.len() - i,
    {
        let ghost before = out@.map_values(|o: Option<String>| opt_str_view(o));
        assert(values@.take(i + 1).drop_last() =~= values@.take(i as int));
        match &values[i] {
            None => {
                out.push(None);
                assert(out@.map_values(|o: Option<String>| opt_str_view(o)) =~= before + seq![None::<Seq<char>>]);
            },
            Some(s) => {
                if s.as_str().unicode_len() == 0 {
                    out.push(None);
                    assert(out@.map_values(|o: Option<String>| opt_str_view(o)) =~= before + seq![None::<Seq<char>>]);
                } else {
                    let pieces = split_trimmed(s.as_str());
                    let ghost cell = split_on(s@, ';').map_values(|p: Seq<char>| Some(spec_trim(p)));
                    let mut k: usize = 0;
                    while k < pieces.len()
                        invariant
                            0 <= k <= pieces.len(),
                            pieces.len() == split_on(s@, ';').len(),
                            forall|q: int| 0 <= q < pieces.len() ==> (#[trigger] pieces@[q])@ == spec_trim(split_on(s@, ';')[q]),
                            cell == split_on(s@, ';').map_values(|p: Seq<char>| Some(spec_trim(p))),
                            out@.map_values(|o: Option<String>| opt_str_view(o)) =~= before + cell.take(k as int),
                        decreases pieces.len() - k,
                    {
                        let ghost prev = out@.map_values(|o: Option<String>| opt_str_view(o));
                        out.push(Some(pieces[k].clone()));
                        assert(out@.map_values(|o: Option<String>| opt_str_view(o)) =~= prev.push(Some(pieces@[k as int]@)));
                        assert(cell.take(k + 1) =~= cell.take(k as int).push(Some(pieces@[k as int]@)));
                        k = k + 1;
                        assert(out@.map_values(|o: Option<String>| opt_str_view(o)) =~= before + cell.take(k as int));
                    }
                    assert(cell.take(k as int) =~= cell);
                }
            },
        }
        i = i + 1;
    }
    assert(values@.take(i as int) =~= values@);
    out
}

/// Every string cell gives as many flattened rows as its row length.
pub proof fn lemma_flatten_cell_len(o: Option<String>)
    ensures
        spec_flatten_cell(o).len() == match o {
            Some(s) => if s@.len() == 0 { 1 } else { split_on(s@, ';').len() as int },
            None => 1,
        },
{
}

/// Flattening a string column yields exactly the total of its row lengths:
/// the repeated columns and the flattened column have the same length.
pub proof fn lemma_flatten_strings_len(v: Seq<Option<String>>, lengths: Seq<usize>)
    requires
        lengths.len() == v.len(),
        forall|i: int| 0 <= i < v.len() ==> lengths[i] as int == (match #[trigger] v[i] {
            Some(s) => if s@.len() == 0 { 1 } else { split_on(s@, ';').len() as int },
            None => 1,
        }),
    ensures
        spec_flatten_strings(v).len() == spec_total(lengths),
    decreases v.len(),
{
    if v.len() > 0 {
        lemma_flatten_strings_len(v.drop_last(), lengths.drop_last());
        lemma_flatten_cell_len(v.last());
    }
}

/// `r` lists, ascending, exactly the indices below `n` that are not in `idx`.
pub open spec fn is_complement(n: int, idx: Seq<usize>, r: Seq<usize>) -> bool {
    &&& forall|j: int| 0 <= j < r.len() ==> (#[trigger] r[j] as int) < n && !idx.contains(r[j])
    &&& forall|j: int, k: int| 0 <= j < k < r.len() ==> #[trigger] r[j] < #[trigger] r[k]
    &&& forall|i: int| 0 <= i < n && !idx.contains(i as usize) ==> #[trigger] r.contains(i as usize)
}

/// The column indices below `n` that are not in `idx`, ascending.
pub fn indices_not_in(n: usize, idx: &Vec<usize>) -> (r: Vec<usize>)
    ensures
        is_complement(n as int, idx@, r@),
{
    let mut out: Vec<usize> = Vec::new();
    let mut i: usize = 0;
    while i < n
        invariant
            0 <= i <= n,
            forall|j: int| 0 <= j < out.len() ==> (#[trigger] out@[j] as int) < i && !idx@.contains(out@[j]),
            forall|j: int, k: int| 0 <= j < k < out.len() ==> #[trigger] out@[j] < #[trigger] out@[k],
            forall|q: int| 0 <= q < i && !idx@.contains(q as usize) ==> #[trigger] out@.contains(q as usize),
        decreases n - i,
    {
        let mut found = false;
        let mut k: usize = 0;
        while k < idx.len()
            invariant
                0 <= k <= idx.len(),
                found == exists|w: int| 0 <= w < k && #[trigger] idx@[w] == i,
            decreases idx.len() - k,
        {
            if idx[k] == i {
                found = true;
            }
            k = k + 1;
        }
        assert(found == idx@.contains(i));
        if !found {
            let ghost before = out@;
            out.push(i);
            proof {
                assert forall|q: int| 0 <= q < i + 1 && !idx@.contains(q as usize) implies #[trigger] out@.contains(q as usize) by {
                    if q < i {
                        assert(before.contains(q as usize));
                        let w = choose|w: int| 0 <= w < before.len() && before[w] == q as usize;
                        assert(out@[w] == q as usize);
                    } else {
                        assert(out@[before.len() as int] == q as usize);
                    }
                }
            }
        }
        i = i + 1;
    }
    out
}

/// Why a fold or flatten cannot run.
#[derive(Debug, Clone, PartialEq, Eq)]
pub enum ReshapeError {
    /// No field was given.
    EmptyFields,
    /// A field names no column.
    ColumnNotFound(String),
    /// The folded columns' types cannot be unified.
    Unify(UnifyError),
}

/// Column indices of the named fields (meaningful when every name resolves).
pub open spec fn spec_field_indices(names: Seq<String>, fields: Seq<String>) -> Seq<usize> {
    Seq::new(fields.len(), |i: int| spec_index_of(names, fields[i]@)->0 as usize)
}

/// Resolve each field to its column index, failing on the first missing one.
pub fn resolve_fields(names: &Vec<String>, fields: &Vec<String>) -> (r: Result<Vec<usize>, ReshapeError>)
    ensures
        match r {
            Ok(idx) => (forall|i: int| 0 <= i < fields.len() ==> spec_index_of(names@, #[trigger] fields@[i]@) is Some)
                && idx@ == spec_field_indices(names@, fields@)
                && forall|i: int| 0 <= i < idx.len() ==> (#[trigger] idx@[i] as int) < names.len(),
            Err(ReshapeError::ColumnNotFound(f)) => exists|i: int| 0 <= i < fields.len()
                && spec_index_of(names@, fields@[i]@) is None && f@ == fields@[i]@
                && forall|j: int| 0 <= j < i ==> spec_index_of(names@, #[trigger] fields@[j]@) is Some,
            Err(_) => false,
        },
{
    let mut idx: Vec<usize> = Vec::with_capacity(fields.len());
    let mut i: usize = 0;
    while i < fields.len()
        invariant
            0 <= i <= fields.len(),
            forall|j: int| 0 <= j < i ==> spec_index_of(names@, #[trigger] fields@[j]@) is Some,
            idx@ == spec_field_indices(names@, fields@).take(i as int),
            forall|j: int| 0 <= j < idx.len() ==> (#[trigger] idx@[j] as int) < names.len(),
        decreases fields.len() - i,
    {
        match index_of(names, &fields[i]) {
            Some(k) => {
                idx.push(k);
                assert(spec_field_indices(names@, fields@).take(i + 1) =~= spec_field_indices(names@, fields@).take(i as int).push(k));
            },
            None => {
                return Err(ReshapeError::ColumnNotFound(fields[i].clone()));
            },
        }
        i = i + 1;
    }
    assert(spec_field_indices(names@, fields@).take(i as int) =~= spec_field_indices(names@, fields@));
    Ok(idx)
}

/// How a fold lays out its output: the folded columns, the preserved
/// columns (all others, in order) and the dtype of the value column.
#[derive(Debug, Clone)]
pub struct FoldPlan {
    pub fold_indices: Vec<usize>,
    pub preserved: Vec<usize>,
    pub value_dtype: DType,
}

/// Plan a fold of `fields` over columns named `names` of types `dtypes`:
/// fields must be non-empty and all exist, and their dtypes must unify.
pub fn plan_fold(names: &Vec<String>, dtypes: &Vec<DType>, fields: &Vec<String>) -> (r: Result<FoldPlan, ReshapeError>)
    requires
        names.len() == dtypes.len(),
    ensures
        match r {
            Ok(p) => fields.len() > 0
                && p.fold_indices@ == spec_field_indices(names@, fields@)
                && (forall|i: int| 0 <= i < fields.len() ==> spec_index_of(names@, #[trigger] fields@[i]@) is Some)
                && is_complement(names.len() as int, p.fold_indices@, p.preserved@)
                && spec_unify(p.fold_indices@.map_values(|i: usize| dtypes@[i as int])) == Ok::<DType, UnifyError>(p.value_dtype),
            Err(ReshapeError::EmptyFields) => fields.len() == 0,
            Err(ReshapeError::ColumnNotFound(f)) => fields.len() > 0 && exists|i: int| 0 <= i < fields.len()
                && spec_index_of(names@, fields@[i]@) is None && f@ == fields@[i]@
                && forall|j: int| 0 <= j < i ==> spec_index_of(names@, #[trigger] fields@[j]@) is Some,
            Err(ReshapeError::Unify(e)) => fields.len() > 0
                && (forall|i: int| 0 <= i < fields.len() ==> spec_index_of(names@, #[trigger] fields@[i]@) is Some)
                && spec_unify(spec_field_indices(names@, fields@).map_values(|i: usize| dtypes@[i as int])) == Err::<DType, UnifyError>(e),
        },
{
    if fields.len() == 0 {
        return Err(ReshapeError::EmptyFields);
    }
    let idx = resolve_fields(names, fields)?;
    let mut ds: Vec<DType> = Vec::with_capacity(idx.len());
    let mut i: usize = 0;
    while i < idx.len()
        invariant
            names.len() == dtypes.len(),
            forall|j: int| 0 <= j < idx.len() ==> (#[trigger] idx@[j] as int) < names.len(),
            0 <= i <= idx.len(),
            ds@ == idx@.map_values(|k: usize| dtypes@[k as int]).take(i as int),
        decreases idx.len() - i,
    {
        ds.push(dtypes[idx[i]]);
        assert(idx@.map_values(|k: usize| dtypes@[k as int]).take(i + 1) =~= idx@.map_values(|k: usize| dtypes@[k as int]).take(i as int).push(dtypes@[idx@[i as int] as int]));
        i = i + 1;
    }
    assert(idx@.map_values(|k: usize| dtypes@[k as int]).take(i as int) =~= idx@.map_values(|k: usize| dtypes@[k as int]));
    let value_dtype = match unify_dtypes(&ds) {
        Ok(d) => d,
        Err(e) => {
            return Err(ReshapeError::Unify(e));
        },
    };
    let preserved = indices_not_in(names.len(), &idx);
    Ok(FoldPlan { fold_indices: idx, preserved, value_dtype })
}

/// The key column of a fold: each field name repeated once per input row,
/// field after field.
pub fn fold_keys(fields: &Vec<String>, n_rows: usize) -> (r: Vec<String>)
    requires
        fields.len() * n_rows <= usize::MAX,
    ensures
        r.len() == fields.len() * n_rows,
        forall|f: int, row: int| 0 <= f < fields.len() && 0 <= row < n_rows
            ==> (#[trigger] r@[f * n_rows + row])@ == fields@[f]@,
{
    let mut out: Vec<String> = Vec::new();
    let mut f: usize = 0;
    while f < fields.len()
        invariant
            fields.len() * n_rows <= usize::MAX,
            0 <= f <= fields.len(),
            out.len() == f * n_rows,
            forall|g: int, row: int| 0 <= g < f && 0 <= row < n_rows ==> (#[trigger] out@[g * n_rows + row])@ == fields@[g]@,
        decreases fields.len() - f,
    {
        proof {
            vstd::arithmetic::mul::lemma_mul_is_distributive_add_other_way(n_rows as int, f as int, 1);
            vstd::arithmetic::mul::lemma_mul_inequality(f + 1, fields.len() as int, n_rows as int);
        }
        let mut row: usize = 0;
        while row < n_rows
            invariant
                0 <= row <= n_rows,
                f < fields.len(),
                (f + 1) * n_rows <= usize::MAX,
                (f + 1) * n_rows == f * n_rows + n_rows,
                out.len() == f * n_rows + row,
                forall|g: int, r2: int| 0 <= g < f && 0 <= r2 < n_rows ==> (#[trigger] out@[g * n_rows + r2])@ == fields@[g]@,
                forall|r2: int| 0 <= r2 < row ==> (#[trigger] out@[f * n_rows + r2])@ == fields@[f as int]@,
            decreases n_rows - row,
        {
            let ghost before = out@;
            out.push(fields[f].clone());
            proof {
                assert forall|g: int, r2: int| 0 <= g < f && 0 <= r2 < n_rows implies (#[trigger] out@[g * n_rows + r2])@ == fields@[g]@ by {
                    vstd::arithmetic::mul::lemma_mul_inequality(g + 1, f as int, n_rows as int);
                    vstd::arithmetic::mul::lemma_mul_is_distributive_add_other_way(n_rows as int, g, 1);
                    assert(out@[g * n_rows + r2] == before[g * n_rows + r2]);
                }
            }
            row = row + 1;
        }
        f = f + 1;
    }
    out
}


/// How a flatten lays out its output: the flattened columns, the repeated
/// columns (all others, in order) and the name of each flattened column.
#[derive(Debug, Clone)]
pub struct FlattenPlan {
    pub field_indices: Vec<usize>,
    pub preserved: Vec<usize>,
    pub out_names: Vec<String>,
}

/// Output name of the `fi`-th flattened field: the `fi`-th `as` name when
/// there is one, the field's own name otherwise.
pub open spec fn spec_flatten_name(fields: Seq<String>, as_names: Option<Vec<String>>, fi: int) -> Seq<char> {
    match as_names {
        Some(a) => if fi < a.len() { a@[fi]@ } else { fields[fi]@ },
        None => fields[fi]@,
    }
}

/// Plan a flatten of `fields` over columns named `names`: fields must be
/// non-empty and all exist.
pub fn plan_flatten(names: &Vec<String>, fields: &Vec<String>, as_names: &Option<Vec<String>>) -> (r: Result<FlattenPlan, ReshapeError>)
    ensures
        match r {
            Ok(p) => fields.len() > 0
                && p.field_indices@ == spec_field_indices(names@, fields@)
                && (forall|i: int| 0 <= i < fields.len() ==> spec_index_of(names@, #[trigger] fields@[i]@) is Some)
                && is_complement(names.len() as int, p.field_indices@, p.preserved@)
                && p.out_names.len() == fields.len()
                && forall|i: int| 0 <= i < fields.len() ==> (#[trigger] p.out_names@[i])@ == spec_flatten_name(fields@, *as_names, i),
            Err(ReshapeError::EmptyFields) => fields.len() == 0,
            Err(ReshapeError::ColumnNotFound(f)) => fields.len() > 0 && exists|i: int| 0 <= i < fields.len()
                && spec_index_of(names@, fields@[i]@) is None && f@ == fields@[i]@
                && forall|j: int| 0 <= j < i ==> spec_index_of(names@, #[trigger] fields@[j]@) is Some,
            Err(ReshapeError::Unify(_)) => false,
        },
{
    if fields.len() == 0 {
        return Err(ReshapeError::EmptyFields);
    }
    let idx = resolve_fields(names, fields)?;
    let preserved = indices_not_in(names.len(), &idx);
    let mut out_names: Vec<String> = Vec::with_capacity(fields.len());
    let mut i: usize = 0;
    while i < fields.len()
        invariant
            0 <= i <= fields.len(),
            out_names.len() == i,
            forall|k: int| 0 <= k < i ==> (#[trigger] out_names@[k])@ == spec_flatten_name(fields@, *as_names, k),
        decreases fields.len() - i,
    {
        let name: String = match as_names {
            Some(a) => if i < a.len() { a[i].clone() } else { fields[i].clone() },
            None => fields[i].clone(),
        };
        out_names.push(name);
        i = i + 1;
    }
    Ok(FlattenPlan { field_indices: idx, preserved, out_names })
}

/// Source row of each output row of a fold's preserved columns: the input
/// rows `0..n_rows`, once per folded field.
pub fn tile_rows(k: usize, n_rows: usize) -> (r: Vec<usize>)
    requires
        k * n_rows <= usize::MAX,
    ensures
        r.len() == k * n_rows,
        forall|f: int, row: int| 0 <= f < k && 0 <= row < n_rows ==> #[trigger] r@[f * n_rows + row] == row,
{
    let mut out: Vec<usize> = Vec::new();
    let mut f: usize = 0;
    while f < k
        invariant
            k * n_rows <= usize::MAX,
            0 <= f <= k,
            out.len() == f * n_rows,
            forall|g: int, row: int| 0 <= g < f && 0 <= row < n_rows ==> #[trigger] out@[g * n_rows + row] == row,
        decreases k - f,
    {
        proof {
            vstd::arithmetic::mul::lemma_mul_is_distributive_add_other_way(n_rows as int, f as int, 1);
            vstd::arithmetic::mul::lemma_mul_inequality(f + 1, k as int, n_rows as int);
        }
        let mut row: usize = 0;
        while row < n_rows
            invariant
                0 <= row <= n_rows,
                f < k,
                (f + 1) * n_rows <= usize::MAX,
                (f + 1) * n_rows == f * n_rows + n_rows,
                out.len() == f * n_rows + row,
                forall|g: int, r2: int| 0 <= g < f && 0 <= r2 < n_rows ==> #[trigger] out@[g * n_rows + r2] == r2,
                forall|r2: int| 0 <= r2 < row ==> #[trigger] out@[f * n_rows + r2] == r2,
            decreases n_rows - row,
        {
            let ghost before = out@;
            out.push(row);
            proof {
                assert forall|g: int, r2: int| 0 <= g < f && 0 <= r2 < n_rows implies #[trigger] out@[g * n_rows + r2] == r2 by {
                    vstd::arithmetic::mul::lemma_mul_inequality(g + 1, f as int, n_rows as int);
                    vstd::arithmetic::mul::lemma_mul_is_distributive_add_other_way(n_rows as int, g, 1);
                    assert(out@[g * n_rows + r2] == before[g * n_rows + r2]);
                }
            }
            row = row + 1;
        }
        f = f + 1;
    }
    out
}

} // verus!
