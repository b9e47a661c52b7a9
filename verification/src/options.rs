//! Parsing and validation of transform options given as strings, and the
//! constructor-time checks of transform specifications.

use vstd::prelude::*;
use crate::text::{str_is, owned};

verus! {

/// Aggregation functions.
#[derive(Debug, Clone, Copy, PartialEq, Eq, Structural)]
pub enum AggFn {
    Mean,
    Sum,
    Count,
    Min,
    Max,
    Median,
    Variance,
    Stdev,
    Q1,
    Q3,
    Distinct,
}

pub open spec fn spec_agg_fn(s: Seq<char>) -> Option<AggFn> {
    if s == "mean"@ { Some(AggFn::Mean) }
    else if s == "sum"@ { Some(AggFn::Sum) }
    else if s == "count"@ { Some(AggFn::Count) }
    else if s == "min"@ { Some(AggFn::Min) }
    else if s == "max"@ { Some(AggFn::Max) }
    else if s == "median"@ { Some(AggFn::Median) }
    else if s == "variance"@ || s == "var"@ { Some(AggFn::Variance) }
    else if s == "stdev"@ { Some(AggFn::Stdev) }
    else if s == "q1"@ { Some(AggFn::Q1) }
    else if s == "q3"@ { Some(AggFn::Q3) }
    else if s == "distinct"@ { Some(AggFn::Distinct) }
    else { None }
}

/// The aggregation function named `s` (`"var"` is an alias of `"variance"`).
pub fn parse_agg_fn(s: &str) -> (r: Option<AggFn>)
    ensures
        r == spec_agg_fn(s@),
{
    if str_is(s, "mean") { Some(AggFn::Mean) }
    else if str_is(s, "sum") { Some(AggFn::Sum) }
    else if str_is(s, "count") { Some(AggFn::Count) }
    else if str_is(s, "min") { Some(AggFn::Min) }
    else if str_is(s, "max") { Some(AggFn::Max) }
    else if str_is(s, "median") { Some(AggFn::Median) }
    else if str_is(s, "variance") || str_is(s, "var") { Some(AggFn::Variance) }
    else if str_is(s, "stdev") { Some(AggFn::Stdev) }
    else if str_is(s, "q1") { Some(AggFn::Q1) }
    else if str_is(s, "q3") { Some(AggFn::Q3) }
    else if str_is(s, "distinct") { Some(AggFn::Distinct) }
    else { None }
}

/// The wire name of each aggregation function: its variant name in lower
/// case, as aggregation descriptors carry it.
pub open spec fn agg_fn_name(f: AggFn) -> Seq<char> {
    match f {
        AggFn::Mean => "mean"@,
        AggFn::Sum => "sum"@,
        AggFn::Count => "count"@,
        AggFn::Min => "min"@,
        AggFn::Max => "max"@,
        AggFn::Median => "median"@,
        AggFn::Variance => "variance"@,
        AggFn::Stdev => "stdev"@,
        AggFn::Q1 => "q1"@,
        AggFn::Q3 => "q3"@,
        AggFn::Distinct => "distinct"@,
    }
}

/// Parsing names the function named: every function's wire name parses back
/// to that function, and a name parses to a function only when it is that
/// function's wire name (or `"var"`, the alias of `variance`).
pub proof fn lemma_agg_fn_name_round_trip(f: AggFn, s: Seq<char>)
    ensures
        spec_agg_fn(agg_fn_name(f)) == Some(f),
        spec_agg_fn(s) == Some(f) ==> s == agg_fn_name(f) || (f == AggFn::Variance && s == "var"@),
{
    reveal_strlit("mean");
    reveal_strlit("sum");
    reveal_strlit("count");
    reveal_strlit("min");
    reveal_strlit("max");
    reveal_strlit("median");
    reveal_strlit("variance");
    reveal_strlit("var");
    reveal_strlit("stdev");
    reveal_strlit("q1");
    reveal_strlit("q3");
    reveal_strlit("distinct");
    assert("mean"@.len() == 4 && "sum"@.len() == 3 && "count"@.len() == 5 && "min"@.len() == 3);
    assert("max"@.len() == 3 && "median"@.len() == 6 && "variance"@.len() == 8 && "var"@.len() == 3);
    assert("stdev"@.len() == 5 && "q1"@.len() == 2 && "q3"@.len() == 2 && "distinct"@.len() == 8);
    assert("sum"@[0] != "min"@[0] && "min"@[1] != "max"@[1] && "var"@[0] != "sum"@[0] && "var"@[0] != "min"@[0]);
    assert("var"@[0] != "max"@[0] && "count"@[0] != "stdev"@[0] && "q1"@[1] != "q3"@[1] && "variance"@[0] != "distinct"@[0]);
}

/// One aggregation: a field, a function and the output name.
#[derive(Debug, Clone)]
pub struct AggregateOp {
    pub field: String,
    pub fn_: AggFn,
    pub as_: String,
}

/// Why an aggregation descriptor is rejected.
#[derive(Debug, Clone, PartialEq, Eq)]
pub enum AggregateOpError {
    /// The output name is empty.
    EmptyAs,
    /// The function name is not known.
    UnknownFn(String),
    /// The field is empty for a function other than count.
    EmptyField,
}

/// Build an aggregation descriptor: the output name must be non-empty, the
/// function known, and the field non-empty unless the function is count
/// (the `count()` shorthand). The checks run in that order.
pub fn new_aggregate_op(field: &str, fn_: &str, as_: &str) -> (r: Result<AggregateOp, AggregateOpError>)
    ensures
        match r {
            Ok(op) => as_@.len() > 0 && spec_agg_fn(fn_@) == Some(op.fn_)
                && (field@.len() > 0 || op.fn_ == AggFn::Count)
                && op.field@ == field@ && op.as_@ == as_@,
            Err(AggregateOpError::EmptyAs) => as_@.len() == 0,
            Err(AggregateOpError::UnknownFn(n)) => as_@.len() > 0 && spec_agg_fn(fn_@) is None && n@ == fn_@,
            Err(AggregateOpError::EmptyField) => as_@.len() > 0 && spec_agg_fn(fn_@) is Some
                && spec_agg_fn(fn_@) != Some(AggFn::Count) && field@.len() == 0,
        },
{
    if as_.unicode_len() == 0 {
        return Err(AggregateOpError::EmptyAs);
    }
    let parsed = match parse_agg_fn(fn_) {
        Some(f) => f,
        None => {
            return Err(AggregateOpError::UnknownFn(owned(fn_)));
        },
    };
    if field.unicode_len() == 0 && parsed != AggFn::Count {
        return Err(AggregateOpError::EmptyField);
    }
    Ok(AggregateOp { field: owned(field), fn_: parsed, as_: owned(as_) })
}

/// Whether an aggregation is `count()` over all rows: a count whose field is
/// empty or `"*"`.
pub fn is_count_star(op: &AggregateOp) -> (r: bool)
    ensures
        r == (op.fn_ == AggFn::Count && (op.field@.len() == 0 || op.field@ == "*"@)),
{
    op.fn_ == AggFn::Count && (op.field.as_str().unicode_len() == 0 || str_is(op.field.as_str(), "*"))
}

/// The first position whose name already occurred earlier, if any.
pub fn first_duplicate(names: &Vec<String>) -> (r: Option<usize>)
    ensures
        match r {
            Some(j) => j < names.len() && (exists|i: int| 0 <= i < j && names@[i]@ == names@[j as int]@)
                && forall|k: int, i: int| 0 <= i < k < j ==> names@[i]@ != names@[k]@,
            None => forall|k: int, i: int| 0 <= i < k < names.len() ==> names@[i]@ != names@[k]@,
        },
{
    let mut j: usize = 0;
    while j < names.len()
        invariant
            0 <= j <= names.len(),
            forall|k: int, i: int| 0 <= i < k < j ==> names@[i]@ != names@[k]@,
        decreases names.len() - j,
    {
        let mut i: usize = 0;
        while i < j
            invariant
                0 <= i <= j < names.len(),
                forall|k: int, i2: int| 0 <= i2 < k < j ==> names@[i2]@ != names@[k]@,
                forall|k: int| 0 <= k < i ==> names@[k]@ != names@[j as int]@,
            decreases j - i,
        {
            if names[i].eq(&names[j]) {
                assert(names@[i as int]@ == names@[j as int]@);
                return Some(j);
            }
            i = i + 1;
        }
        j = j + 1;
    }
    None
}

/// Error-bar methods.
#[derive(Debug, Clone, Copy, PartialEq, Eq, Structural)]
pub enum ErrorMethod {
    Ci,
    Stderr,
    Stdev,
    Iqr,
}

pub open spec fn spec_error_method(s: Seq<char>) -> Option<ErrorMethod> {
    if s == "ci"@ { Some(ErrorMethod::Ci) }
    else if s == "stderr"@ { Some(ErrorMethod::Stderr) }
    else if s == "stdev"@ { Some(ErrorMethod::Stdev) }
    else if s == "iqr"@ { Some(ErrorMethod::Iqr) }
    else { None }
}

/// The error-bar method named `s`.
pub fn parse_error_method(s: &str) -> (r: Option<ErrorMethod>)
    ensures
        r == spec_error_method(s@),
{
    if str_is(s, "ci") { Some(ErrorMethod::Ci) }
    else if str_is(s, "stderr") { Some(ErrorMethod::Stderr) }
    else if str_is(s, "stdev") { Some(ErrorMethod::Stdev) }
    else if str_is(s, "iqr") { Some(ErrorMethod::Iqr) }
    else { None }
}

/// Why a specification with a field and groupby columns is rejected.
#[derive(Debug, Clone, PartialEq, Eq)]
pub enum SpecError {
    /// The value field is empty.
    EmptyField,
    /// The method name is not known.
    UnknownMethod(String),
    /// Bootstrap confidence intervals need at least one resample.
    ZeroBootstrap,
    /// A groupby column is named twice.
    DuplicateGroupby(String),
}

/// Checks of an error-extent specification, in order: non-empty field, known
/// method, at least one resample for `ci`, no groupby column named twice.
pub fn validate_error_extent(field: &str, method: &str, groupby: &Vec<String>, n_boot: usize) -> (r: Result<ErrorMethod, SpecError>)
    ensures
        match r {
            Ok(m) => field@.len() > 0 && spec_error_method(method@) == Some(m) && !(m == ErrorMethod::Ci && n_boot == 0)
                && forall|k: int, i: int| 0 <= i < k < groupby.len() ==> groupby@[i]@ != groupby@[k]@,
            Err(SpecError::EmptyField) => field@.len() == 0,
            Err(SpecError::UnknownMethod(n)) => field@.len() > 0 && spec_error_method(method@) is None && n@ == method@,
            Err(SpecError::ZeroBootstrap) => field@.len() > 0 && spec_error_method(method@) == Some(ErrorMethod::Ci) && n_boot == 0,
            Err(SpecError::DuplicateGroupby(g)) => field@.len() > 0 && spec_error_method(method@) is Some
                && !(spec_error_method(method@) == Some(ErrorMethod::Ci) && n_boot == 0)
                && exists|j: int, i: int| 0 <= i < j < groupby.len() && groupby@[i]@ == groupby@[j]@ && g@ == groupby@[j]@
                    && forall|k: int, i2: int| 0 <= i2 < k < j ==> groupby@[i2]@ != groupby@[k]@,
        },
{
    if field.unicode_len() == 0 {
        return Err(SpecError::EmptyField);
    }
    let m = match parse_error_method(method) {
        Some(m) => m,
        None => {
            return Err(SpecError::UnknownMethod(owned(method)));
        },
    };
    if m == ErrorMethod::Ci && n_boot == 0 {
        return Err(SpecError::ZeroBootstrap);
    }
    match first_duplicate(groupby) {
        Some(j) => Err(SpecError::DuplicateGroupby(groupby[j].clone())),
        None => Ok(m),
    }
}

/// Whisker extent of a box plot.
#[derive(Debug, Clone, Copy, PartialEq, Eq, Structural)]
pub enum WhiskerRule {
    /// Whiskers reach the data minimum and maximum.
    MinMax,
    /// Whiskers reach the furthest point within a multiple of the IQR.
    IqrMultiplier,
}

/// The whisker rule a string argument selects: only `"min-max"` is accepted.
pub fn parse_whisker_string(s: &str) -> (r: Option<WhiskerRule>)
    ensures
        r == (if s@ == "min-max"@ { Some(WhiskerRule::MinMax) } else { None::<WhiskerRule> }),
{
    if str_is(s, "min-max") { Some(WhiskerRule::MinMax) } else { None }
}

/// Checks of a box-stats specification: non-empty field, then no groupby
/// column named twice.
pub fn validate_box_stats(field: &str, groupby: &Vec<String>) -> (r: Result<(), SpecError>)
    ensures
        match r {
            Ok(()) => field@.len() > 0 && forall|k: int, i: int| 0 <= i < k < groupby.len() ==> groupby@[i]@ != groupby@[k]@,
            Err(SpecError::EmptyField) => field@.len() == 0,
            Err(SpecError::DuplicateGroupby(g)) => field@.len() > 0
                && exists|j: int, i: int| 0 <= i < j < groupby.len() && groupby@[i]@ == groupby@[j]@ && g@ == groupby@[j]@,
            Err(_) => false,
        },
{
    if field.unicode_len() == 0 {
        return Err(SpecError::EmptyField);
    }
    match first_duplicate(groupby) {
        Some(j) => Err(SpecError::DuplicateGroupby(groupby[j].clone())),
        None => Ok(()),
    }
}

/// The groupby of an aggregate must not name a column twice.
pub fn validate_aggregate_groupby(groupby: &Vec<String>) -> (r: Result<(), SpecError>)
    ensures
        match r {
            Ok(()) => forall|k: int, i: int| 0 <= i < k < groupby.len() ==> groupby@[i]@ != groupby@[k]@,
            Err(SpecError::DuplicateGroupby(g)) => exists|j: int, i: int| 0 <= i < j < groupby.len()
                && groupby@[i]@ == groupby@[j]@ && g@ == groupby@[j]@,
            Err(_) => false,
        },
{
    match first_duplicate(groupby) {
        Some(j) => Err(SpecError::DuplicateGroupby(groupby[j].clone())),
        None => Ok(()),
    }
}

/// Imputation methods.
#[derive(Debug, Clone, Copy, PartialEq, Eq, Structural)]
pub enum ImputeMethod {
    Value,
    Mean,
    Median,
    Min,
    Max,
}

pub open spec fn spec_impute_method(s: Seq<char>) -> Option<ImputeMethod> {
    if s == "value"@ { Some(ImputeMethod::Value) }
    else if s == "mean"@ { Some(ImputeMethod::Mean) }
    else if s == "median"@ { Some(ImputeMethod::Median) }
    else if s == "min"@ { Some(ImputeMethod::Min) }
    else if s == "max"@ { Some(ImputeMethod::Max) }
    else { None }
}

/// The imputation method named `s`.
pub fn parse_impute_method(s: &str) -> (r: Option<ImputeMethod>)
    ensures
        r == spec_impute_method(s@),
{
    if str_is(s, "value") { Some(ImputeMethod::Value) }
    else if str_is(s, "mean") { Some(ImputeMethod::Mean) }
    else if str_is(s, "median") { Some(ImputeMethod::Median) }
    else if str_is(s, "min") { Some(ImputeMethod::Min) }
    else if str_is(s, "max") { Some(ImputeMethod::Max) }
    else { None }
}

/// The name of each imputation method, as imputation requests carry it.
pub open spec fn impute_method_name(m: ImputeMethod) -> Seq<char> {
    match m {
        ImputeMethod::Value => "value"@,
        ImputeMethod::Mean => "mean"@,
        ImputeMethod::Median => "median"@,
        ImputeMethod::Min => "min"@,
        ImputeMethod::Max => "max"@,
    }
}

/// Parsing names the method named: every method's name parses back to that
/// method, and a name parses to a method only when it is that method's name.
pub proof fn lemma_impute_method_name_round_trip(m: ImputeMethod, s: Seq<char>)
    ensures
        spec_impute_method(impute_method_name(m)) == Some(m),
        spec_impute_method(s) == Some(m) ==> s == impute_method_name(m),
{
    reveal_strlit("value");
    reveal_strlit("mean");
    reveal_strlit("median");
    reveal_strlit("min");
    reveal_strlit("max");
    assert("value"@.len() == 5 && "mean"@.len() == 4 && "median"@.len() == 6 && "min"@.len() == 3 && "max"@.len() == 3);
    assert("min"@[1] != "max"@[1]);
}

/// Stack offset modes.
#[derive(Debug, Clone, Copy, PartialEq, Eq, Structural)]
pub enum StackOffset {
    Zero,
    Normalize,
    Center,
}

pub open spec fn spec_stack_offset(s: Seq<char>) -> Option<StackOffset> {
    if s == "zero"@ { Some(StackOffset::Zero) }
    else if s == "normalize"@ { Some(StackOffset::Normalize) }
    else if s == "center"@ { Some(StackOffset::Center) }
    else { None }
}

/// The stack offset named `s`.
pub fn parse_stack_offset(s: &str) -> (r: Option<StackOffset>)
    ensures
        r == spec_stack_offset(s@),
{
    if str_is(s, "zero") { Some(StackOffset::Zero) }
    else if str_is(s, "normalize") { Some(StackOffset::Normalize) }
    else if str_is(s, "center") { Some(StackOffset::Center) }
    else { None }
}

/// Bin-count rules that a bins argument can name.
#[derive(Debug, Clone, Copy, PartialEq, Eq, Structural)]
pub enum BinRule {
    Sturges,
    FreedmanDiaconis,
}

pub open spec fn spec_bin_rule(s: Seq<char>) -> Option<BinRule> {
    if s == "sturges"@ { Some(BinRule::Sturges) }
    else if s == "fd"@ || s == "freedman_diaconis"@ { Some(BinRule::FreedmanDiaconis) }
    else { None }
}

/// The bin-count rule named `s` (`"fd"` abbreviates Freedman–Diaconis).
pub fn parse_bin_rule(s: &str) -> (r: Option<BinRule>)
    ensures
        r == spec_bin_rule(s@),
{
    if str_is(s, "sturges") { Some(BinRule::Sturges) }
    else if str_is(s, "fd") || str_is(s, "freedman_diaconis") { Some(BinRule::FreedmanDiaconis) }
    else { None }
}

/// Aggregate ranking the groups of a letter-value transform.
#[derive(Debug, Clone, Copy, PartialEq, Eq, Structural)]
pub enum SortOp {
    Sum,
    Mean,
    Max,
    Min,
    Count,
    Median,
}

/// Direction of a group ordering.
#[derive(Debug, Clone, Copy, PartialEq, Eq, Structural)]
pub enum SortOrder {
    Asc,
    Desc,
}

/// A group ordering: aggregate and direction.
#[derive(Debug, Clone, Copy, PartialEq, Eq, Structural)]
pub struct LetterValueSort {
    pub op: SortOp,
    pub order: SortOrder,
}

pub open spec fn spec_sort_op(s: Seq<char>) -> Option<SortOp> {
    if s == "sum"@ { Some(SortOp::Sum) }
    else if s == "mean"@ { Some(SortOp::Mean) }
    else if s == "max"@ { Some(SortOp::Max) }
    else if s == "min"@ { Some(SortOp::Min) }
    else if s == "count"@ { Some(SortOp::Count) }
    else if s == "median"@ { Some(SortOp::Median) }
    else { None }
}

pub open spec fn spec_sort_order(s: Seq<char>) -> Option<SortOrder> {
    if s == "ascending"@ || s == "asc"@ { Some(SortOrder::Asc) }
    else if s == "descending"@ || s == "desc"@ { Some(SortOrder::Desc) }
    else { None }
}

/// Why a group ordering is rejected.
#[derive(Debug, Clone, PartialEq, Eq)]
pub enum SortParseError {
    UnknownOp(String),
    UnknownOrder(String),
}

/// Parse a group ordering from its optional `op` (default `"sum"`) and
/// `order` (default `"ascending"`; `"asc"`/`"desc"` also accepted).
pub fn parse_sort(op: Option<&str>, order: Option<&str>) -> (r: Result<LetterValueSort, SortParseError>)
    ensures
        ({
            let o = match op { Some(s) => s@, None => "sum"@ };
            let d = match order { Some(s) => s@, None => "ascending"@ };
            match r {
                Ok(s) => spec_sort_op(o) == Some(s.op) && spec_sort_order(d) == Some(s.order),
                Err(SortParseError::UnknownOp(n)) => spec_sort_op(o) is None && n@ == o,
                Err(SortParseError::UnknownOrder(n)) => spec_sort_op(o) is Some && spec_sort_order(d) is None && n@ == d,
            }
        }),
{
    let o = match op { Some(s) => s, None => "sum" };
    let d = match order { Some(s) => s, None => "ascending" };
    let sop = if str_is(o, "sum") { SortOp::Sum }
        else if str_is(o, "mean") { SortOp::Mean }
        else if str_is(o, "max") { SortOp::Max }
        else if str_is(o, "min") { SortOp::Min }
        else if str_is(o, "count") { SortOp::Count }
        else if str_is(o, "median") { SortOp::Median }
        else { return Err(SortParseError::UnknownOp(owned(o))); };
    let sord = if str_is(d, "ascending") || str_is(d, "asc") { SortOrder::Asc }
        else if str_is(d, "descending") || str_is(d, "desc") { SortOrder::Desc }
        else { return Err(SortParseError::UnknownOrder(owned(d))); };
    Ok(LetterValueSort { op: sop, order: sord })
}

/// Strategies for the number of letter-value depths.
#[derive(Debug, Clone, Copy, PartialEq, Eq, Structural)]
pub enum KDepthKind {
    Tukey,
    Proportion,
    Trustworthy,
    Full,
}

pub open spec fn spec_k_depth_kind(s: Seq<char>) -> Option<KDepthKind> {
    if s == "tukey"@ { Some(KDepthKind::Tukey) }
    else if s == "proportion"@ { Some(KDepthKind::Proportion) }
    else if s == "trustworthy"@ { Some(KDepthKind::Trustworthy) }
    else if s == "full"@ { Some(KDepthKind::Full) }
    else { None }
}

/// The depth strategy named `s`.
pub fn parse_k_depth_kind(s: &str) -> (r: Option<KDepthKind>)
    ensures
        r == spec_k_depth_kind(s@),
{
    if str_is(s, "tukey") { Some(KDepthKind::Tukey) }
    else if str_is(s, "proportion") { Some(KDepthKind::Proportion) }
    else if str_is(s, "trustworthy") { Some(KDepthKind::Trustworthy) }
    else if str_is(s, "full") { Some(KDepthKind::Full) }
    else { None }
}

} // verus!
