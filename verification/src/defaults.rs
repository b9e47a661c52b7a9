//! Default values of transform specification fields.

use vstd::prelude::*;
use crate::text::owned;

verus! {

/// Data binning nices its bin boundaries unless told otherwise.
pub fn default_nice() -> (r: bool)
    ensures
        r,
{
    true
}

/// The 1-D bin transform nices its extent unless told otherwise.
pub fn default_true() -> (r: bool)
    ensures
        r,
{
    true
}

/// Output column names of a stack: `("y0", "y1")`.
pub fn default_stack_as() -> (r: (String, String))
    ensures
        r.0@ == "y0"@,
        r.1@ == "y1"@,
{
    (owned("y0"), owned("y1"))
}

/// Stack offset mode: `"zero"`.
pub fn default_offset() -> (r: String)
    ensures
        r@ == "zero"@,
{
    owned("zero")
}

/// Output column names of a fold: `("key", "value")`.
pub fn default_fold_as() -> (r: (String, String))
    ensures
        r.0@ == "key"@,
        r.1@ == "value"@,
{
    (owned("key"), owned("value"))
}

/// Output column names of a density transform: `("value", "density")`.
pub fn default_density_as() -> (r: (String, String))
    ensures
        r.0@ == "value"@,
        r.1@ == "density"@,
{
    (owned("value"), owned("density"))
}

/// Bootstrap seed of an error extent: 0.
pub fn default_seed() -> (r: u64)
    ensures
        r == 0,
{
    0
}

/// Number of bootstrap resamples of an error extent: 1000.
pub fn default_n_boot() -> (r: usize)
    ensures
        r == 1000,
{
    1000
}

/// Imputation method: `"value"`.
pub fn default_method() -> (r: String)
    ensures
        r@ == "value"@,
{
    owned("value")
}

/// Hexbin aggregate: `"count"`.
pub fn default_aggregate() -> (r: String)
    ensures
        r@ == "count"@,
{
    owned("count")
}

/// Density kernel: `"gaussian"`.
pub fn default_kernel() -> (r: String)
    ensures
        r@ == "gaussian"@,
{
    owned("gaussian")
}

/// Number of contour thresholds: 6.
pub fn default_thresholds() -> (r: u32)
    ensures
        r == 6,
{
    6
}

/// Contours are smoothed unless told otherwise.
pub fn default_smooth() -> (r: bool)
    ensures
        r,
{
    true
}

/// Grid size of a 2-D density: 128.
pub fn default_kde2d_n() -> (r: usize)
    ensures
        r == 128,
{
    128
}

} // verus!
