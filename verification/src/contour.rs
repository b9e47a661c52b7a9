//! Contours over a density grid: the input checks, the marching-squares case
//! of each cell and the cell edges its segments join, the grid indices of a
//! cell's corners, and the numbering of output segments and polygons.
//! Where a segment crosses an edge, and the clipping of isobands, are
//! computed by the caller in floating point.

use vstd::prelude::*;
use crate::dtype::DType;
use crate::text::str_is;

verus! {

/// An edge of a grid cell.
#[derive(Debug, Clone, Copy, PartialEq, Eq, Structural)]
pub enum Edge {
    Top,
    Right,
    Bottom,
    Left,
}

/// The 4-bit case of a cell: top-left, top-right, bottom-right and
/// bottom-left corner at or above the level, from the high bit down.
pub open spec fn spec_corner_mask(tl: bool, tr: bool, br: bool, bl: bool) -> int {
    (if tl { 8int } else { 0 }) + (if tr { 4int } else { 0 }) + (if br { 2int } else { 0 }) + (if bl { 1int } else { 0 })
}

/// The case of a cell from which of its corners are at or above the level.
pub fn corner_mask(tl: bool, tr: bool, br: bool, bl: bool) -> (r: u8)
    ensures
        r as int == spec_corner_mask(tl, tr, br, bl),
        r < 16,
{
    let mut m: u8 = 0;
    if tl { m = m + 8; }
    if tr { m = m + 4; }
    if br { m = m + 2; }
    if bl { m = m + 1; }
    m
}

/// Whether each corner of case `mask` is at or above the level.
pub open spec fn tl_of(mask: int) -> bool { (mask / 8) % 2 == 1 }
pub open spec fn tr_of(mask: int) -> bool { (mask / 4) % 2 == 1 }
pub open spec fn br_of(mask: int) -> bool { (mask / 2) % 2 == 1 }
pub open spec fn bl_of(mask: int) -> bool { mask % 2 == 1 }

/// Whether the level crosses edge `e` of a cell of case `mask`: its two
/// corners lie on different sides.
pub open spec fn crossed(mask: int, e: Edge) -> bool {
    match e {
        Edge::Top => tl_of(mask) != tr_of(mask),
        Edge::Right => tr_of(mask) != br_of(mask),
        Edge::Bottom => br_of(mask) != bl_of(mask),
        Edge::Left => bl_of(mask) != tl_of(mask),
    }
}

/// The segments of a cell of case `mask`, each joining two edges; the two
/// saddle cases (5 and 10) are told apart by whether the cell's centre
/// average is at or above the level.
pub open spec fn spec_cell_segments(mask: int, center_above: bool) -> Seq<(Edge, Edge)> {
    if mask == 1 { seq![(Edge::Left, Edge::Bottom)] }
    else if mask == 2 { seq![(Edge::Bottom, Edge::Right)] }
    else if mask == 3 { seq![(Edge::Left, Edge::Right)] }
    else if mask == 4 { seq![(Edge::Top, Edge::Right)] }
    else if mask == 5 {
        if center_above { seq![(Edge::Top, Edge::Left), (Edge::Bottom, Edge::Right)] }
        else { seq![(Edge::Top, Edge::Right), (Edge::Bottom, Edge::Left)] }
    }
    else if mask == 6 { seq![(Edge::Top, Edge::Bottom)] }
    else if mask == 7 { seq![(Edge::Left, Edge::Top)] }
    else if mask == 8 { seq![(Edge::Left, Edge::Top)] }
    else if mask == 9 { seq![(Edge::Top, Edge::Bottom)] }
    else if mask == 10 {
        if center_above { seq![(Edge::Top, Edge::Right), (Edge::Bottom, Edge::Left)] }
        else { seq![(Edge::Top, Edge::Left), (Edge::Bottom, Edge::Right)] }
    }
    else if mask == 11 { seq![(Edge::Top, Edge::Right)] }
    else if mask == 12 { seq![(Edge::Left, Edge::Right)] }
    else if mask == 13 { seq![(Edge::Bottom, Edge::Right)] }
    else if mask == 14 { seq![(Edge::Left, Edge::Bottom)] }
    else { Seq::empty() }
}

/// The segments of a cell of case `mask`.
pub fn cell_segments(mask: u8, center_above: bool) -> (r: Vec<(Edge, Edge)>)
    requires
        mask < 16,
    ensures
        r@ == spec_cell_segments(mask as int, center_above),
{
    let mut v: Vec<(Edge, Edge)> = Vec::new();
    if mask == 1 { v.push((Edge::Left, Edge::Bottom)); }
    else if mask == 2 { v.push((Edge::Bottom, Edge::Right)); }
    else if mask == 3 { v.push((Edge::Left, Edge::Right)); }
    else if mask == 4 { v.push((Edge::Top, Edge::Right)); }
    else if mask == 5 {
        if center_above {
            v.push((Edge::Top, Edge::Left));
            v.push((Edge::Bottom, Edge::Right));
        } else {
            v.push((Edge::Top, Edge::Right));
            v.push((Edge::Bottom, Edge::Left));
        }
    }
    else if mask == 6 { v.push((Edge::Top, Edge::Bottom)); }
    else if mask == 7 { v.push((Edge::Left, Edge::Top)); }
    else if mask == 8 { v.push((Edge::Left, Edge::Top)); }
    else if mask == 9 { v.push((Edge::Top, Edge::Bottom)); }
    else if mask == 10 {
        if center_above {
            v.push((Edge::Top, Edge::Right));
            v.push((Edge::Bottom, Edge::Left));
        } else {
            v.push((Edge::Top, Edge::Left));
            v.push((Edge::Bottom, Edge::Right));
        }
    }
    else if mask == 11 { v.push((Edge::Top, Edge::Right)); }
    else if mask == 12 { v.push((Edge::Left, Edge::Right)); }
    else if mask == 13 { v.push((Edge::Bottom, Edge::Right)); }
    else if mask == 14 { v.push((Edge::Left, Edge::Bottom)); }
    assert(v@ =~= spec_cell_segments(mask as int, center_above));
    v
}

/// How many segment ends lie on edge `e`.
pub open spec fn edge_uses(segs: Seq<(Edge, Edge)>, e: Edge) -> int
    decreases segs.len(),
{
    if segs.len() == 0 {
        0
    } else {
        edge_uses(segs.drop_last(), e) + (if segs.last().0 == e { 1int } else { 0 })
            + (if segs.last().1 == e { 1int } else { 0 })
    }
}

/// The segments of every cell join each edge that the level crosses exactly
/// once and no other edge, and no segment starts and ends on one edge.
pub proof fn lemma_segments_join_crossed_edges(mask: u8, center_above: bool)
    requires
        mask < 16,
    ensures
        forall|e: Edge| #[trigger] edge_uses(spec_cell_segments(mask as int, center_above), e)
            == if crossed(mask as int, e) { 1int } else { 0 },
        forall|i: int| 0 <= i < spec_cell_segments(mask as int, center_above).len()
            ==> (#[trigger] spec_cell_segments(mask as int, center_above)[i]).0
                != spec_cell_segments(mask as int, center_above)[i].1,
{
    let segs = spec_cell_segments(mask as int, center_above);
    assert(segs.len() <= 2);
    if segs.len() == 2 {
        assert(segs.drop_last().drop_last() =~= Seq::<(Edge, Edge)>::empty());
    } else if segs.len() == 1 {
        assert(segs.drop_last() =~= Seq::<(Edge, Edge)>::empty());
    }
    assert forall|e: Edge| #[trigger] edge_uses(segs, e) == if crossed(mask as int, e) { 1int } else { 0 } by {
        reveal_with_fuel(edge_uses, 3);
    }
}

/// Whether corner `c` (0 top-left, 1 top-right, 2 bottom-right, 3
/// bottom-left) of a cell of case `mask` is at or above the level.
pub open spec fn corner_at_or_above(mask: int, c: int) -> bool {
    if c == 0 { tl_of(mask) } else if c == 1 { tr_of(mask) } else if c == 2 { br_of(mask) } else { bl_of(mask) }
}

/// The corner that a segment between two adjacent edges cuts off (the corner
/// the two edges share, numbered as in [`corner_at_or_above`]); `None` for
/// two opposite edges or one edge twice.
pub open spec fn cut_corner(a: Edge, b: Edge) -> Option<int> {
    if (a == Edge::Top && b == Edge::Left) || (a == Edge::Left && b == Edge::Top) { Some(0int) }
    else if (a == Edge::Top && b == Edge::Right) || (a == Edge::Right && b == Edge::Top) { Some(1int) }
    else if (a == Edge::Bottom && b == Edge::Right) || (a == Edge::Right && b == Edge::Bottom) { Some(2int) }
    else if (a == Edge::Bottom && b == Edge::Left) || (a == Edge::Left && b == Edge::Bottom) { Some(3int) }
    else { None }
}

/// In a saddle cell (case 5 or 10) the centre decides which diagonal pair
/// of corners stays connected: there are two segments, each cuts off one
/// corner, the two corners differ, and the corners cut off lie below the
/// level when the centre average is at or above it, and at or above the
/// level otherwise.
pub proof fn lemma_saddle_cuts_off_corners_across_from_centre(mask: u8, center_above: bool)
    requires
        mask == 5 || mask == 10,
    ensures
        spec_cell_segments(mask as int, center_above).len() == 2,
        forall|i: int| 0 <= i < 2 ==> (#[trigger] cut_corner(spec_cell_segments(mask as int, center_above)[i].0,
            spec_cell_segments(mask as int, center_above)[i].1)) is Some,
        forall|i: int| 0 <= i < 2 ==> corner_at_or_above(mask as int,
            #[trigger] cut_corner(spec_cell_segments(mask as int, center_above)[i].0,
                spec_cell_segments(mask as int, center_above)[i].1)->0) == !center_above,
        cut_corner(spec_cell_segments(mask as int, center_above)[0].0, spec_cell_segments(mask as int, center_above)[0].1)
            != cut_corner(spec_cell_segments(mask as int, center_above)[1].0, spec_cell_segments(mask as int, center_above)[1].1),
{
    let segs = spec_cell_segments(mask as int, center_above);
    assert(segs.len() == 2);
    assert forall|i: int| 0 <= i < 2 implies (#[trigger] cut_corner(segs[i].0, segs[i].1)) is Some
        && corner_at_or_above(mask as int, cut_corner(segs[i].0, segs[i].1)->0) == !center_above by {
        if i == 0 {
            assert(segs[0] == segs[0]);
        } else {
            assert(segs[1] == segs[1]);
        }
    }
}

/// The output id of a segment or polygon: its level (or band) index in the
/// high half, its running number in the low half.
pub fn level_id(index: u32, counter: u32) -> (r: u32)
    ensures
        r == ((index << 16u32) | counter),
        (index < 0x10000 && counter < 0x10000) ==> r as int == index * 0x10000 + counter,
{
    let r = (index << 16u32) | counter;
    assert((index < 0x10000 && counter < 0x10000) ==> ((index << 16u32) | counter) as int == index * 0x10000 + counter) by (bit_vector);
    r
}

/// The grid positions of a cell's corners, row-major over a grid `nx`
/// wide: top-left, top-right, bottom-right, bottom-left.
pub fn cell_corners(nx: usize, ny: usize, gx: usize, gy: usize) -> (r: (usize, usize, usize, usize))
    requires
        gx + 1 < nx,
        gy + 1 < ny,
        nx * ny <= usize::MAX,
    ensures
        r.0 == gy * nx + gx,
        r.1 == gy * nx + gx + 1,
        r.2 == (gy + 1) * nx + gx + 1,
        r.3 == (gy + 1) * nx + gx,
        r.2 < nx * ny,
{
    proof {
        vstd::arithmetic::mul::lemma_mul_inequality(gy as int + 2, ny as int, nx as int);
        vstd::arithmetic::mul::lemma_mul_is_distributive_add_other_way(nx as int, gy as int + 1, 1);
        vstd::arithmetic::mul::lemma_mul_is_distributive_add_other_way(nx as int, gy as int, 1);
        vstd::arithmetic::mul::lemma_mul_is_commutative(nx as int, ny as int);
    }
    let top = gy * nx;
    let bottom = (gy + 1) * nx;
    (top + gx, top + gx + 1, bottom + gx + 1, bottom + gx)
}

/// The largest of a non-empty sequence.
pub open spec fn spec_max_u32(s: Seq<u32>) -> u32
    decreases s.len(),
{
    if s.len() <= 1 {
        s[0]
    } else {
        let m = spec_max_u32(s.drop_last());
        if s.last() > m { s.last() } else { m }
    }
}

/// Shift a surface's ids past `base` (wrapping) and give the base for the
/// next surface: past this surface's largest id, or `base` itself when the
/// surface has none.
pub fn rebase_level_ids(ids: &Vec<u32>, base: u32) -> (r: (Vec<u32>, u32))
    ensures
        r.0.len() == ids.len(),
        forall|i: int| 0 <= i < ids.len() ==> #[trigger] r.0@[i] == vstd::wrapping::u32_specs::wrapping_add(ids@[i], base),
        ids.len() == 0 ==> r.1 == base,
        ids.len() > 0 ==> r.1 == vstd::wrapping::u32_specs::wrapping_add(
            vstd::wrapping::u32_specs::wrapping_add(base, spec_max_u32(ids@)), 1),
        (ids.len() > 0 && base + spec_max_u32(ids@) < u32::MAX) ==>
            forall|i: int| 0 <= i < ids.len() ==> base <= #[trigger] r.0@[i] < r.1,
{
    let mut out: Vec<u32> = Vec::with_capacity(ids.len());
    let mut m: u32 = 0;
    let mut i: usize = 0;
    while i < ids.len()
        invariant
            0 <= i <= ids.len(),
            out.len() == i,
            forall|k: int| 0 <= k < i ==> #[trigger] out@[k] == vstd::wrapping::u32_specs::wrapping_add(ids@[k], base),
            i > 0 ==> m == spec_max_u32(ids@.take(i as int)),
            forall|k: int| 0 <= k < i ==> ids@[k] <= m,
        decreases ids.len() - i,
    {
        assert(ids@.take(i + 1).drop_last() =~= ids@.take(i as int));
        out.push(ids[i].wrapping_add(base));
        if i == 0 || ids[i] > m {
            m = ids[i];
        }
        i = i + 1;
    }
    assert(ids@.take(i as int) =~= ids@);
    if ids.len() == 0 {
        return (out, base);
    }
    let next = base.wrapping_add(m).wrapping_add(1);
    (out, next)
}

/// Why a contour request cannot run.
#[derive(Debug, Clone, PartialEq, Eq)]
pub enum ContourError {
    /// The number of levels is zero.
    ZeroThresholds,
    /// A column of the density surface is missing.
    MissingColumn(String),
}

/// The columns of a density surface, in the order they are checked.
pub open spec fn surface_col(i: int) -> Seq<char> {
    if i == 0 { "grid_x"@ }
    else if i == 1 { "grid_y"@ }
    else if i == 2 { "density"@ }
    else if i == 3 { "nx"@ }
    else if i == 4 { "ny"@ }
    else { "extent"@ }
}

/// Whether some column is named `name`.
pub open spec fn has_col(names: Seq<String>, name: Seq<char>) -> bool {
    exists|j: int| 0 <= j < names.len() && #[trigger] names[j]@ == name
}

/// Whether some column is named `name`.
fn has_column(names: &Vec<String>, name: &str) -> (r: bool)
    ensures
        r == has_col(names@, name@),
{
    let mut j: usize = 0;
    while j < names.len()
        invariant
            0 <= j <= names.len(),
            forall|k: int| 0 <= k < j ==> #[trigger] names@[k]@ != name@,
        decreases names.len() - j,
    {
        if str_is(names[j].as_str(), name) {
            return true;
        }
        j = j + 1;
    }
    false
}

/// Check a contour request: at least one level, and every surface column
/// present (the first missing one is reported).
pub fn check_contour_input(thresholds: u32, names: &Vec<String>) -> (r: Result<(), ContourError>)
    ensures
        match r {
            Ok(()) => thresholds > 0 && forall|i: int| 0 <= i < 6 ==> has_col(names@, #[trigger] surface_col(i)),
            Err(ContourError::ZeroThresholds) => thresholds == 0,
            Err(ContourError::MissingColumn(c)) => thresholds > 0 && exists|i: int| #![trigger surface_col(i)] 0 <= i < 6
                && !has_col(names@, surface_col(i)) && c@ == surface_col(i)
                && forall|k: int| 0 <= k < i ==> has_col(names@, #[trigger] surface_col(k)),
        },
{
    if thresholds == 0 {
        return Err(ContourError::ZeroThresholds);
    }
    let mut i: usize = 0;
    while i < 6
        invariant
            thresholds > 0,
            0 <= i <= 6,
            forall|k: int| 0 <= k < i ==> has_col(names@, #[trigger] surface_col(k)),
        decreases 6 - i,
    {
        let name: &str = if i == 0 { "grid_x" }
            else if i == 1 { "grid_y" }
            else if i == 2 { "density" }
            else if i == 3 { "nx" }
            else if i == 4 { "ny" }
            else { "extent" };
        assert(name@ == surface_col(i as int));
        if !has_column(names, name) {
            let missing = String::from_str(name);
            assert(!has_col(names@, surface_col(i as int)) && missing@ == surface_col(i as int));
            return Err(ContourError::MissingColumn(missing));
        }
        i = i + 1;
    }
    Ok(())
}

/// The group column of a grouped surface batch: the seventh column, when
/// there is one and it is `Utf8`.
pub fn detect_group_col(names: &Vec<String>, dtypes: &Vec<DType>) -> (r: Option<(String, usize)>)
    requires
        names.len() == dtypes.len(),
    ensures
        match r {
            Some((n, i)) => names.len() > 6 && i == 6 && dtypes@[6] == DType::Utf8 && n@ == names@[6]@,
            None => names.len() <= 6 || dtypes@[6] != DType::Utf8,
        },
{
    if names.len() > 6 && dtypes[6] == DType::Utf8 {
        Some((names[6].clone(), 6))
    } else {
        None
    }
}

/// What to do with one surface row.
#[derive(Debug, Clone, Copy, PartialEq, Eq, Structural)]
pub enum SurfaceShape {
    /// The list lengths disagree with `nx` and `ny`: an error.
    Mismatch,
    /// Fewer than two grid points along an axis: skipped.
    TooSmall,
    /// Contoured.
    Contoured,
}

/// Check a surface row: `grid_x` must hold `nx` values, `grid_y` `ny` and
/// `density` `nx * ny`; a grid narrower than 2 along an axis is skipped.
pub fn surface_shape(grid_x_len: usize, grid_y_len: usize, density_len: usize, nx: u32, ny: u32) -> (r: SurfaceShape)
    ensures
        r == if grid_x_len != nx || grid_y_len != ny || density_len != nx * ny { SurfaceShape::Mismatch }
            else if nx < 2 || ny < 2 { SurfaceShape::TooSmall }
            else { SurfaceShape::Contoured },
{
    assert((nx as u64) * (ny as u64) <= 0xffff_ffffu64 * 0xffff_ffffu64) by (nonlinear_arith)
        requires
            nx <= 0xffff_ffffu32,
            ny <= 0xffff_ffffu32,
    ;
    let cells: u64 = (nx as u64) * (ny as u64);
    if grid_x_len as u64 != nx as u64 || grid_y_len as u64 != ny as u64 || density_len as u64 != cells {
        SurfaceShape::Mismatch
    } else if nx < 2 || ny < 2 {
        SurfaceShape::TooSmall
    } else {
        SurfaceShape::Contoured
    }
}

} // verus!
