use ferrum_core::column::{ColumnData, Table};
use ferrum_core::window::{
    build_partitions, check_parts_disjoint, edge_sources, frames, parse_window_op, resolve_window_op,
    row_numbers, shift_sources, tie_ranks, window_value, RankKey, WindowError, WindowOpKind,
};

fn x_table(vals: Vec<f64>) -> Table {
    let n = vals.len();
    Table {
        names: vec!["x".into()],
        columns: vec![ColumnData::Float64(vals.into_iter().map(|v| Some(v.to_bits())).collect())],
        n_rows: n,
    }
}

/// The partitions of an unsorted, ungrouped window: every row in order.
fn one_partition(t: &Table) -> Vec<Vec<usize>> {
    let sorted: Vec<usize> = (0..t.n_rows).collect();
    build_partitions(t, &None, &sorted).unwrap()
}

/// The rolling means over each row's frame, as the caller computes them.
fn rolling_means(t: &Table, preceding: Option<i64>, following: Option<i64>) -> Vec<f64> {
    let parts = one_partition(t);
    let fr = frames(&parts, preceding, following);
    let mut out = vec![f64::NAN; t.n_rows];
    for (p, part) in parts.iter().enumerate() {
        for (pos, &row) in part.iter().enumerate() {
            let (start, end) = fr[p][pos];
            let vals: Vec<f64> = (start..end)
                .map(|q| f64::from_bits(window_value(&t.columns[0], part[q])))
                .filter(|v| !v.is_nan())
                .collect();
            out[row] = if vals.is_empty() { f64::NAN } else { vals.iter().sum::<f64>() / vals.len() as f64 };
        }
    }
    out
}

#[test]
fn window_rolling_mean_with_frame() {
    let t = x_table(vec![1.0, 2.0, 3.0, 4.0, 5.0]);
    let means = rolling_means(&t, Some(-1), Some(1));
    assert_eq!(means.len(), 5);
    assert!((means[0] - 1.5).abs() < 1e-12);
    assert!((means[1] - 2.0).abs() < 1e-12);
    assert!((means[2] - 3.0).abs() < 1e-12);
    assert!((means[3] - 4.0).abs() < 1e-12);
    assert!((means[4] - 4.5).abs() < 1e-12);
}

#[test]
fn window_row_number() {
    let t = x_table(vec![10.0, 20.0, 30.0]);
    let parts = one_partition(&t);
    let rn = row_numbers(&parts, t.n_rows);
    assert_eq!(rn[0], Some(1));
    assert_eq!(rn[1], Some(2));
    assert_eq!(rn[2], Some(3));
}

#[test]
fn window_lag_lead() {
    let t = x_table(vec![1.0, 2.0, 3.0, 4.0]);
    let parts = one_partition(&t);
    let value = |src: Option<usize>| match src {
        Some(r) => f64::from_bits(window_value(&t.columns[0], r)),
        None => f64::NAN,
    };
    let lag: Vec<f64> = shift_sources(&parts, 1, true, t.n_rows).into_iter().map(value).collect();
    let lead: Vec<f64> = shift_sources(&parts, 1, false, t.n_rows).into_iter().map(value).collect();
    assert!(lag[0].is_nan());
    assert_eq!(lag[1], 1.0);
    assert_eq!(lag[2], 2.0);
    assert_eq!(lead[0], 2.0);
    assert_eq!(lead[1], 3.0);
    assert!(lead[3].is_nan());
}

#[test]
fn window_trailing_frame_negative_preceding() {
    let t = x_table(vec![1.0, 2.0, 3.0, 4.0, 5.0]);
    let means = rolling_means(&t, Some(-2), Some(0));
    assert!((means[0] - 1.0).abs() < 1e-12, "pos=0: {}", means[0]);
    assert!((means[1] - 1.5).abs() < 1e-12, "pos=1: {}", means[1]);
    assert!((means[2] - 2.0).abs() < 1e-12, "pos=2: {}", means[2]);
    assert!((means[3] - 3.0).abs() < 1e-12, "pos=3: {}", means[3]);
    assert!((means[4] - 4.0).abs() < 1e-12, "pos=4: {}", means[4]);
}

#[test]
fn window_leading_frame_positive_following() {
    let t = x_table(vec![1.0, 2.0, 3.0, 4.0, 5.0]);
    let means = rolling_means(&t, Some(0), Some(2));
    assert!((means[0] - 2.0).abs() < 1e-12, "pos=0: {}", means[0]);
    assert!((means[1] - 3.0).abs() < 1e-12, "pos=1: {}", means[1]);
    assert!((means[2] - 4.0).abs() < 1e-12, "pos=2: {}", means[2]);
    assert!((means[3] - 4.5).abs() < 1e-12, "pos=3: {}", means[3]);
    assert!((means[4] - 5.0).abs() < 1e-12, "pos=4: {}", means[4]);
}

#[test]
fn window_symmetric_frame() {
    let t = x_table(vec![1.0, 2.0, 3.0, 4.0, 5.0]);
    let means = rolling_means(&t, Some(-1), Some(1));
    assert!((means[0] - 1.5).abs() < 1e-12, "pos=0: {}", means[0]);
    assert!((means[1] - 2.0).abs() < 1e-12, "pos=1: {}", means[1]);
    assert!((means[2] - 3.0).abs() < 1e-12, "pos=2: {}", means[2]);
    assert!((means[3] - 4.0).abs() < 1e-12, "pos=3: {}", means[3]);
    assert!((means[4] - 4.5).abs() < 1e-12, "pos=4: {}", means[4]);
}

#[test]
fn grouped_partitions_hold_one_group_per_key() {
    let t = Table {
        names: vec!["g".into()],
        columns: vec![ColumnData::Utf8(vec![Some("a".into()), Some("b".into()), Some("a".into()), None])],
        n_rows: 4,
    };
    let sorted = vec![0, 2, 1, 3];
    let parts = build_partitions(&t, &Some(vec!["g".to_string()]), &sorted).unwrap();
    assert_eq!(parts, vec![vec![0, 2], vec![1], vec![3]]);
    // Interleaved keys in sorted order still give one partition per key.
    let interleaved = build_partitions(&t, &Some(vec!["g".to_string()]), &vec![0, 1, 2, 3]).unwrap();
    assert_eq!(interleaved, vec![vec![0, 2], vec![1], vec![3]]);
    let reversed = build_partitions(&t, &Some(vec!["g".to_string()]), &vec![3, 2, 1, 0]).unwrap();
    assert_eq!(reversed, vec![vec![3], vec![2, 0], vec![1]]);
    assert!(check_parts_disjoint(&parts, 4));
    assert!(!check_parts_disjoint(&vec![vec![0, 1], vec![1]], 4));
    assert!(!check_parts_disjoint(&vec![vec![0, 4]], 4));
    let missing = build_partitions(&t, &Some(vec!["h".to_string()]), &sorted).unwrap_err();
    assert!(missing.message().contains("data_window"));
    assert!(missing.message().contains("'h'"));
}

#[test]
fn ranks_share_ties_and_dense_ranks_do_not_skip() {
    let parts = vec![vec![0, 1, 2, 3]];
    let keys = vec![RankKey::Num(1), RankKey::Num(1), RankKey::Num(2), RankKey::Num(3)];
    assert_eq!(tie_ranks(&parts, &keys, false, 4), vec![Some(1), Some(1), Some(3), Some(4)]);
    assert_eq!(tie_ranks(&parts, &keys, true, 4), vec![Some(1), Some(1), Some(2), Some(3)]);
}

#[test]
fn first_and_last_value_sources() {
    let parts = vec![vec![2, 0], vec![1]];
    assert_eq!(edge_sources(&parts, true, 3), vec![Some(2), Some(1), Some(2)]);
    assert_eq!(edge_sources(&parts, false, 3), vec![Some(0), Some(1), Some(0)]);
}

#[test]
fn window_op_resolution_errors() {
    let names = vec!["x".to_string()];
    assert_eq!(parse_window_op("dense_rank"), Some(WindowOpKind::DenseRank));
    assert!(matches!(
        resolve_window_op(&names, "median", &None, None, true),
        Err(WindowError::UnknownOp(o)) if o == "median"
    ));
    assert!(matches!(
        resolve_window_op(&names, "lag", &None, None, true),
        Err(WindowError::RequiresField(o)) if o == "lag"
    ));
    assert!(matches!(
        resolve_window_op(&names, "sum", &Some("y".to_string()), None, true),
        Err(WindowError::ColumnNotFound(f)) if f == "y"
    ));
    let lead = resolve_window_op(&names, "lead", &Some("x".to_string()), None, true).unwrap();
    assert_eq!(lead.column, Some(0));
    assert_eq!(lead.offset, 1);
    let rank = resolve_window_op(&names, "rank", &Some("".to_string()), None, true).unwrap();
    assert_eq!(rank.column, None);
}

#[test]
fn window_values_of_other_dtypes_read_as_nan() {
    let c = ColumnData::Int64(vec![Some(3)]);
    assert!(f64::from_bits(window_value(&c, 0)).is_nan());
    let f = ColumnData::Float64(vec![None, Some(2.5f64.to_bits())]);
    assert!(f64::from_bits(window_value(&f, 0)).is_nan());
    assert_eq!(f64::from_bits(window_value(&f, 1)), 2.5);
}
