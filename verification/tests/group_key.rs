use ferrum_core::column::{ColumnData, Table};
use ferrum_core::dtype::{is_groupby_supported_dtype, DType};
use ferrum_core::group_key::{groupby_key_at, materialize_groupby_col, normalize_groupby, GroupbyArg, KeyValue};
use ferrum_core::partition::group_partition_multi;

fn nan_bits() -> u64 {
    f64::NAN.to_bits()
}

fn one_col(name: &str, col: ColumnData) -> Table {
    let n_rows = col.len();
    Table { names: vec![name.to_string()], columns: vec![col], n_rows }
}

#[test]
fn null_and_nan_float_keys_are_distinct() {
    let arr = ColumnData::Float64(vec![None, Some(nan_bits()), Some(1.0f64.to_bits())]);
    let k_null = groupby_key_at(&arr, DType::Float64, 0).unwrap();
    let k_nan = groupby_key_at(&arr, DType::Float64, 1).unwrap();
    let k_real = groupby_key_at(&arr, DType::Float64, 2).unwrap();
    assert_eq!(k_null, KeyValue::Null);
    assert!(matches!(k_nan, KeyValue::Float(_)));
    assert_ne!(k_null, k_nan, "null and NaN must be distinct keys");
    assert_ne!(k_nan, k_real);
}

#[test]
fn int64_key_extract_and_materialize_roundtrip() {
    let arr = ColumnData::Int64(vec![Some(10), None, Some(20)]);
    let keys: Vec<Vec<KeyValue>> = (0..3)
        .map(|r| vec![groupby_key_at(&arr, DType::Int64, r).unwrap()])
        .collect();
    assert_eq!(keys[0][0], KeyValue::Int(10));
    assert_eq!(keys[1][0], KeyValue::Null);
    assert_eq!(keys[2][0], KeyValue::Int(20));

    let col = materialize_groupby_col(&keys, 0, DType::Int64).unwrap();
    let out = match col {
        ColumnData::Int64(v) => v,
        _ => panic!("wrong dtype"),
    };
    assert_eq!(out[0], Some(10));
    assert!(out[1].is_none(), "null int key materializes as Arrow null");
    assert_eq!(out[2], Some(20));
}

#[test]
fn fa9_null_int_key_distinct_from_real_zero_key() {
    let keys: Vec<Vec<KeyValue>> = vec![
        vec![KeyValue::Null],
        vec![KeyValue::Int(0)],
        vec![KeyValue::Int(5)],
    ];
    let col = materialize_groupby_col(&keys, 0, DType::Int64).unwrap();
    let out = match col {
        ColumnData::Int64(v) => v,
        _ => panic!("wrong dtype"),
    };
    assert!(out[0].is_none(), "null key must be a distinct Arrow null");
    assert!(out[1].is_some());
    assert_eq!(out[1], Some(0), "real 0 key stays 0");
    assert!(out[2].is_some());
    assert_eq!(out[2], Some(5));
}

#[test]
fn unsupported_dtype_rejected() {
    assert!(!is_groupby_supported_dtype(DType::Other));
    assert!(is_groupby_supported_dtype(DType::Int32));
    assert!(is_groupby_supported_dtype(DType::Boolean));
    assert!(is_groupby_supported_dtype(DType::Utf8));
}

#[test]
fn group_partition_int64_first_appearance_order() {
    let batch = one_col("g", ColumnData::Int64(vec![Some(20), Some(10), Some(20), Some(10)]));
    let p = group_partition_multi(&batch, &vec!["g".to_string()], "test").unwrap();
    assert_eq!(p.dtypes[0], DType::Int64);
    assert_eq!(p.order, vec![vec![KeyValue::Int(20)], vec![KeyValue::Int(10)]]);
    assert_eq!(p.rows_for(&vec![KeyValue::Int(20)]).unwrap(), &vec![0_usize, 2]);
    assert_eq!(p.rows_for(&vec![KeyValue::Int(10)]).unwrap(), &vec![1_usize, 3]);
}

#[test]
fn group_partition_boolean_groups() {
    let batch = one_col("g", ColumnData::Boolean(vec![Some(true), Some(false), Some(true)]));
    let p = group_partition_multi(&batch, &vec!["g".to_string()], "test").unwrap();
    assert_eq!(p.dtypes[0], DType::Boolean);
    assert_eq!(p.order, vec![vec![KeyValue::Bool(1)], vec![KeyValue::Bool(0)]]);
    assert_eq!(p.rows_for(&vec![KeyValue::Bool(1)]).unwrap(), &vec![0_usize, 2]);
    assert_eq!(p.rows_for(&vec![KeyValue::Bool(0)]).unwrap(), &vec![1_usize]);
}

#[test]
fn group_partition_skips_null_keys() {
    let batch = one_col("g", ColumnData::Int64(vec![Some(1), None, Some(1), None]));
    let p = group_partition_multi(&batch, &vec!["g".to_string()], "test").unwrap();
    assert_eq!(p.order, vec![vec![KeyValue::Int(1)]]);
    assert_eq!(p.rows_for(&vec![KeyValue::Int(1)]).unwrap(), &vec![0_usize, 2]);
    assert!(p.rows_for(&vec![KeyValue::Null]).is_none(), "null key must be skipped");
}

#[test]
fn group_partition_unsupported_dtype_errors() {
    let batch = one_col("g", ColumnData::Other(2));
    let err = group_partition_multi(&batch, &vec!["g".to_string()], "stat_kde").unwrap_err();
    let msg = err.message();
    assert!(msg.contains("unsupported dtype"), "err: {msg}");
    assert!(msg.contains("stat_kde"), "err must carry ctx: {msg}");
}

#[test]
fn group_partition_missing_column_errors() {
    let batch = one_col("g", ColumnData::Int64(vec![Some(1), Some(2)]));
    let err = group_partition_multi(&batch, &vec!["ghost".to_string()], "stat_smooth").unwrap_err();
    assert!(err.message().contains("ghost"), "err: {}", err.message());
}

#[test]
fn group_partition_multi_two_string_columns() {
    let g1 = ColumnData::Utf8(vec!["A", "A", "B", "B"].into_iter().map(|s| Some(s.to_string())).collect());
    let g2 = ColumnData::Utf8(vec!["x", "y", "x", "y"].into_iter().map(|s| Some(s.to_string())).collect());
    let batch = Table { names: vec!["g1".to_string(), "g2".to_string()], columns: vec![g1, g2], n_rows: 4 };
    let p = group_partition_multi(&batch, &vec!["g1".to_string(), "g2".to_string()], "test").unwrap();

    assert_eq!(p.dtypes.len(), 2);
    assert_eq!(p.dtypes[0], DType::Utf8);
    assert_eq!(p.dtypes[1], DType::Utf8);

    assert_eq!(p.order.len(), 4);
    assert_eq!(p.order[0], vec![KeyValue::Str("A".into()), KeyValue::Str("x".into())]);
    assert_eq!(p.order[1], vec![KeyValue::Str("A".into()), KeyValue::Str("y".into())]);
    assert_eq!(p.order[2], vec![KeyValue::Str("B".into()), KeyValue::Str("x".into())]);
    assert_eq!(p.order[3], vec![KeyValue::Str("B".into()), KeyValue::Str("y".into())]);

    assert_eq!(p.rows_for(&p.order[0]).unwrap(), &vec![0]);
    assert_eq!(p.rows_for(&p.order[1]).unwrap(), &vec![1]);
    assert_eq!(p.rows_for(&p.order[2]).unwrap(), &vec![2]);
    assert_eq!(p.rows_for(&p.order[3]).unwrap(), &vec![3]);
}

#[test]
fn group_partition_multi_skips_null_rows() {
    let g1 = ColumnData::Utf8(vec![Some("A".to_string()), None, Some("B".to_string())]);
    let g2 = ColumnData::Utf8(vec![Some("x".to_string()), Some("x".to_string()), Some("y".to_string())]);
    let batch = Table { names: vec!["g1".to_string(), "g2".to_string()], columns: vec![g1, g2], n_rows: 3 };
    let p = group_partition_multi(&batch, &vec!["g1".to_string(), "g2".to_string()], "test").unwrap();
    assert_eq!(p.order.len(), 2);
    assert_eq!(p.rows_for(&p.order[0]).unwrap(), &vec![0]);
    assert_eq!(p.rows_for(&p.order[1]).unwrap(), &vec![2]);
}

#[test]
fn groupby_argument_forms_normalize() {
    assert!(normalize_groupby(GroupbyArg::Absent).is_empty());
    assert_eq!(normalize_groupby(GroupbyArg::One("col".to_string())), vec!["col".to_string()]);
    assert_eq!(
        normalize_groupby(GroupbyArg::Many(vec!["a".to_string(), "b".to_string()])),
        vec!["a".to_string(), "b".to_string()]
    );
}

#[test]
fn narrow_int8_key_round_trips_through_materialize() {
    let arr = ColumnData::Int8(vec![Some(-128), Some(127), None]);
    let keys: Vec<Vec<KeyValue>> = (0..3).map(|r| vec![groupby_key_at(&arr, DType::Int8, r).unwrap()]).collect();
    let col = materialize_groupby_col(&keys, 0, DType::Int8).unwrap();
    match col {
        ColumnData::Int8(v) => assert_eq!(v, vec![Some(-128), Some(127), None]),
        _ => panic!("wrong dtype"),
    }
}
