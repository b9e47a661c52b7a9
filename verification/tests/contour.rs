use ferrum_core::contour::{
    cell_corners, cell_segments, check_contour_input, corner_mask, detect_group_col, level_id, rebase_level_ids,
    surface_shape, ContourError, Edge, SurfaceShape,
};
use ferrum_core::dtype::DType;

fn surface_names() -> Vec<String> {
    ["grid_x", "grid_y", "density", "nx", "ny", "extent"].iter().map(|s| s.to_string()).collect()
}

#[test]
fn saddle_cell_is_split_by_its_centre_value() {
    // One cell: tl=0, tr=10, br=0, bl=10; a single level halfway through the range.
    let (tl, tr, br, bl) = (0.0f64, 10.0f64, 0.0f64, 10.0f64);
    let t = 1u32;
    let (dmin, dmax) = (0.0f64, 10.0f64);
    let level = dmin + (dmax - dmin) * 1.0 / ((t + 1) as f64);
    assert!((level - 5.0).abs() < 1e-9);
    let mask = corner_mask(tl >= level, tr >= level, br >= level, bl >= level);
    assert_eq!(mask, 5);
    let center = (tl + tr + br + bl) * 0.25;
    let segs = cell_segments(mask, center >= level);
    assert_eq!(segs.len(), 2);
    assert_eq!(segs, vec![(Edge::Top, Edge::Left), (Edge::Bottom, Edge::Right)]);
    assert_eq!(cell_segments(5, false), vec![(Edge::Top, Edge::Right), (Edge::Bottom, Edge::Left)]);
}

#[test]
fn every_case_joins_its_crossed_edges() {
    for mask in 0u8..16 {
        for center in [false, true] {
            let segs = cell_segments(mask, center);
            let bit = |b: u8| (mask >> b) & 1 == 1;
            let (tl, tr, br, bl) = (bit(3), bit(2), bit(1), bit(0));
            let crossed = [
                (Edge::Top, tl != tr),
                (Edge::Right, tr != br),
                (Edge::Bottom, br != bl),
                (Edge::Left, bl != tl),
            ];
            for (e, c) in crossed {
                let uses = segs.iter().filter(|(a, b)| *a == e || *b == e).count();
                assert_eq!(uses, if c { 1 } else { 0 }, "mask {mask} edge {e:?}");
            }
        }
    }
}

#[test]
fn level_ids_pack_band_and_counter() {
    assert_eq!(level_id(0, 7), 7);
    assert_eq!(level_id(1, 0), 0x10000);
    assert_eq!(level_id(1, 3) >> 16, 1);
    assert_eq!(level_id(1, 3) & 0xFFFF, 3);
    let (ids, next) = rebase_level_ids(&vec![0, 0x10001, 5], 100);
    assert_eq!(ids, vec![100, 0x10065, 105]);
    assert_eq!(next, 0x10066);
    let (none, same) = rebase_level_ids(&vec![], 9);
    assert!(none.is_empty());
    assert_eq!(same, 9);
}

#[test]
fn contour_input_checks() {
    let names = surface_names();
    assert_eq!(check_contour_input(0, &names), Err(ContourError::ZeroThresholds));
    assert_eq!(check_contour_input(3, &names), Ok(()));
    let missing: Vec<String> = names.iter().filter(|n| *n != "nx").cloned().collect();
    assert_eq!(check_contour_input(3, &missing), Err(ContourError::MissingColumn("nx".into())));
    let mut grouped = names.clone();
    grouped.push("species".into());
    let mut dtypes = vec![DType::Other; 6];
    dtypes.push(DType::Utf8);
    assert_eq!(detect_group_col(&grouped, &dtypes), Some(("species".to_string(), 6)));
    dtypes[6] = DType::Int64;
    assert_eq!(detect_group_col(&grouped, &dtypes), None);
    assert_eq!(detect_group_col(&names, &vec![DType::Other; 6]), None);
}

#[test]
fn surface_shapes_and_cell_corners() {
    assert_eq!(surface_shape(3, 2, 6, 3, 2), SurfaceShape::Contoured);
    assert_eq!(surface_shape(3, 2, 5, 3, 2), SurfaceShape::Mismatch);
    assert_eq!(surface_shape(1, 4, 4, 1, 4), SurfaceShape::TooSmall);
    assert_eq!(cell_corners(4, 3, 2, 1), (6, 7, 11, 10));
}
