//! Construction-time checks of the density, binning, hexagon and model
//! transforms' options that involve names and counts, and the choices they
//! make between alternative options. The checks of floating-point options
//! are made by the caller, in their place in the order given here.

use vstd::prelude::*;
use crate::text::str_is;
use crate::hexbin::{HexAggregate, parse_hex_aggregate, spec_hex_aggregate};

verus! {

/// Why a transform's options are rejected.
#[derive(Debug, Clone, PartialEq, Eq)]
pub enum ConfigError {
    /// The value field is empty.
    EmptyField,
    /// The x or y field is empty (named here: `x`, `y`, or `x and y`).
    EmptyAxis(String),
    /// A grid or bin count is zero.
    ZeroCount,
    /// The iteration limit is zero.
    ZeroIterations,
    /// A name is not one of the accepted ones.
    Unknown(String),
    /// The aggregate (named here) needs a value field.
    RequiresField(String),
}

/// Density kernels.
#[derive(Debug, Clone, Copy, PartialEq, Eq, Structural)]
pub enum KdeKernel {
    Gaussian,
    Epanechnikov,
    Tophat,
    Cosine,
}

/// The kernel an accepted name selects (`epan` and `uniform` are aliases).
pub open spec fn spec_kde_kernel(s: Seq<char>) -> Option<KdeKernel> {
    if s == "gaussian"@ { Some(KdeKernel::Gaussian) }
    else if s == "epanechnikov"@ || s == "epan"@ { Some(KdeKernel::Epanechnikov) }
    else if s == "tophat"@ || s == "uniform"@ { Some(KdeKernel::Tophat) }
    else if s == "cosine"@ { Some(KdeKernel::Cosine) }
    else { None }
}

/// The kernel named `s`, if the name is accepted.
pub fn parse_kde_kernel(s: &str) -> (r: Option<KdeKernel>)
    ensures
        r == spec_kde_kernel(s@),
{
    if str_is(s, "gaussian") { Some(KdeKernel::Gaussian) }
    else if str_is(s, "epanechnikov") || str_is(s, "epan") { Some(KdeKernel::Epanechnikov) }
    else if str_is(s, "tophat") || str_is(s, "uniform") { Some(KdeKernel::Tophat) }
    else if str_is(s, "cosine") { Some(KdeKernel::Cosine) }
    else { None }
}

/// The kernel a density is computed with: the named one, Gaussian for any
/// name that is not accepted.
pub fn kernel_for_name(s: &str) -> (r: KdeKernel)
    ensures
        r == match spec_kde_kernel(s@) { Some(k) => k, None => KdeKernel::Gaussian },
{
    match parse_kde_kernel(s) {
        Some(k) => k,
        None => KdeKernel::Gaussian,
    }
}

/// Bandwidth rules a name can select.
#[derive(Debug, Clone, Copy, PartialEq, Eq, Structural)]
pub enum BandwidthRule {
    Scott,
    Silverman,
}

/// The bandwidth rule named `s`.
pub open spec fn spec_bandwidth_rule(s: Seq<char>) -> Option<BandwidthRule> {
    if s == "scott"@ { Some(BandwidthRule::Scott) }
    else if s == "silverman"@ { Some(BandwidthRule::Silverman) }
    else { None }
}

/// The bandwidth rule named `s`, or the unknown name as an error.
pub fn parse_bandwidth_rule(s: &str) -> (r: Result<BandwidthRule, ConfigError>)
    ensures
        match r {
            Ok(b) => spec_bandwidth_rule(s@) == Some(b),
            Err(ConfigError::Unknown(n)) => spec_bandwidth_rule(s@) is None && n@ == s@,
            Err(_) => false,
        },
{
    if str_is(s, "scott") { Ok(BandwidthRule::Scott) }
    else if str_is(s, "silverman") { Ok(BandwidthRule::Silverman) }
    else { Err(ConfigError::Unknown(String::from_str(s))) }
}

/// The checks of a 1-D density's field and grid size, in order: a
/// non-empty field, then a positive grid size.
pub fn check_kde_options(field: &str, n: usize) -> (r: Result<(), ConfigError>)
    ensures
        match r {
            Ok(()) => field@.len() > 0 && n > 0,
            Err(ConfigError::EmptyField) => field@.len() == 0,
            Err(ConfigError::ZeroCount) => field@.len() > 0 && n == 0,
            Err(_) => false,
        },
{
    if field.unicode_len() == 0 {
        return Err(ConfigError::EmptyField);
    }
    if n == 0 {
        return Err(ConfigError::ZeroCount);
    }
    Ok(())
}

/// The checks of a 2-D density's fields and grid size, in order: a
/// non-empty x, a non-empty y, a positive grid size.
pub fn check_kde2d_options(x: &str, y: &str, n: usize) -> (r: Result<(), ConfigError>)
    ensures
        match r {
            Ok(()) => x@.len() > 0 && y@.len() > 0 && n > 0,
            Err(ConfigError::EmptyAxis(a)) => (x@.len() == 0 && a@ == "x"@) || (x@.len() > 0 && y@.len() == 0 && a@ == "y"@),
            Err(ConfigError::ZeroCount) => x@.len() > 0 && y@.len() > 0 && n == 0,
            Err(_) => false,
        },
{
    if x.unicode_len() == 0 {
        return Err(ConfigError::EmptyAxis(String::from_str("x")));
    }
    if y.unicode_len() == 0 {
        return Err(ConfigError::EmptyAxis(String::from_str("y")));
    }
    if n == 0 {
        return Err(ConfigError::ZeroCount);
    }
    Ok(())
}

/// The checks of a hexagonal binning's options, in order: non-empty x and
/// y, a known aggregate, and a field for every aggregate but count.
pub fn check_hex_options(x: &str, y: &str, aggregate: &str, has_field: bool) -> (r: Result<HexAggregate, ConfigError>)
    ensures
        match r {
            Ok(a) => x@.len() > 0 && y@.len() > 0 && spec_hex_aggregate(aggregate@) == Some(a)
                && (a != HexAggregate::Count ==> has_field),
            Err(ConfigError::EmptyAxis(n)) => (x@.len() == 0 || y@.len() == 0) && n@ == "x and y"@,
            Err(ConfigError::Unknown(n)) => x@.len() > 0 && y@.len() > 0 && spec_hex_aggregate(aggregate@) is None && n@ == aggregate@,
            Err(ConfigError::RequiresField(n)) => x@.len() > 0 && y@.len() > 0 && spec_hex_aggregate(aggregate@) is Some
                && spec_hex_aggregate(aggregate@) != Some(HexAggregate::Count) && !has_field && n@ == aggregate@,
            Err(_) => false,
        },
{
    if x.unicode_len() == 0 || y.unicode_len() == 0 {
        return Err(ConfigError::EmptyAxis(String::from_str("x and y")));
    }
    match parse_hex_aggregate(aggregate) {
        None => Err(ConfigError::Unknown(String::from_str(aggregate))),
        Some(a) => {
            if a != HexAggregate::Count && !has_field {
                Err(ConfigError::RequiresField(String::from_str(aggregate)))
            } else {
                Ok(a)
            }
        },
    }
}

/// The checks of a model fit's counts, in order: non-empty x and y, a
/// positive grid size, a positive iteration limit.
pub fn check_glm_options(x: &str, y: &str, n_grid: usize, max_iter: usize) -> (r: Result<(), ConfigError>)
    ensures
        match r {
            Ok(()) => x@.len() > 0 && y@.len() > 0 && n_grid > 0 && max_iter > 0,
            Err(ConfigError::EmptyAxis(n)) => (x@.len() == 0 || y@.len() == 0) && n@ == "x and y"@,
            Err(ConfigError::ZeroCount) => x@.len() > 0 && y@.len() > 0 && n_grid == 0,
            Err(ConfigError::ZeroIterations) => x@.len() > 0 && y@.len() > 0 && n_grid > 0 && max_iter == 0,
            Err(_) => false,
        },
{
    if x.unicode_len() == 0 || y.unicode_len() == 0 {
        return Err(ConfigError::EmptyAxis(String::from_str("x and y")));
    }
    if n_grid == 0 {
        return Err(ConfigError::ZeroCount);
    }
    if max_iter == 0 {
        return Err(ConfigError::ZeroIterations);
    }
    Ok(())
}

/// The checks of a 1-D binning's field and count, in order: a non-empty
/// field, then a positive count when one is given.
pub fn check_bin_options(field: &str, bin_count: Option<usize>) -> (r: Result<(), ConfigError>)
    ensures
        match r {
            Ok(()) => field@.len() > 0 && bin_count != Some(0usize),
            Err(ConfigError::EmptyField) => field@.len() == 0,
            Err(ConfigError::ZeroCount) => field@.len() > 0 && bin_count == Some(0usize),
            Err(_) => false,
        },
{
    if field.unicode_len() == 0 {
        return Err(ConfigError::EmptyField);
    }
    if bin_count == Some(0usize) {
        return Err(ConfigError::ZeroCount);
    }
    Ok(())
}

/// How a 1-D binning chooses its bins.
#[derive(Debug, Clone, Copy, PartialEq, Eq, Structural)]
pub enum BinChoice {
    /// A fixed number of bins.
    Count(usize),
    /// A fixed bin width (the given one).
    Width,
    /// Sturges' rule.
    Sturges,
}

/// The bin choice of a 1-D binning: a given count wins over a given width,
/// which wins over Sturges' rule.
pub fn bin_choice(bin_count: Option<usize>, has_width: bool) -> (r: BinChoice)
    ensures
        r == match bin_count {
            Some(n) => BinChoice::Count(n),
            None => if has_width { BinChoice::Width } else { BinChoice::Sturges },
        },
{
    match bin_count {
        Some(n) => BinChoice::Count(n),
        None => if has_width { BinChoice::Width } else { BinChoice::Sturges },
    }
}

} // verus!
