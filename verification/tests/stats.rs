use ferrum_core::bootstrap::{bootstrap_indices, gather};
use ferrum_core::column::{ColumnData, Table};
use ferrum_core::dtype::DType;
use ferrum_core::group_key::KeyValue;
use ferrum_core::grouped_ops::{
    data_aggregate_output_fields, impute_cells, join_key_text, partition_by_texts, plan_box_stats, plan_data_aggregate, plan_data_stack,
    plan_impute, plan_join_aggregate, BoxStatsError, DataAggregateError, ImputeError, JoinAggregateError,
    StackError,
};
use ferrum_core::options::{new_aggregate_op, AggFn, AggregateOp, ImputeMethod, StackOffset};
use ferrum_core::stat_groups::{
    count_distinct, count_non_null, counting_aggregate, finite_values, plan_aggregate, plan_error_extent,
    StatError, NAN_BITS,
};
use ferrum_core::window::scatter;

fn fbits(v: Vec<Option<f64>>) -> Vec<Option<u64>> {
    v.into_iter().map(|x| x.map(f64::to_bits)).collect()
}

fn strs(v: Vec<&str>) -> Vec<Option<String>> {
    v.into_iter().map(|s| Some(s.to_string())).collect()
}

/// A table with a Float64 value column `v` and a Utf8 column `group`.
fn value_group(values: Vec<Option<f64>>, groups: Vec<&str>) -> Table {
    let n = values.len();
    Table {
        names: vec!["v".into(), "group".into()],
        columns: vec![ColumnData::Float64(fbits(values)), ColumnData::Utf8(strs(groups))],
        n_rows: n,
    }
}

fn op(field: &str, fn_: AggFn, as_: &str) -> AggregateOp {
    AggregateOp { field: field.into(), fn_, as_: as_.into() }
}

fn group_name(key: &Vec<KeyValue>) -> String {
    match &key[0] {
        KeyValue::Str(s) => s.clone(),
        _ => panic!("not a string key"),
    }
}

fn float_vals(t: &Table, col: usize, rows: &Vec<usize>) -> Vec<f64> {
    match &t.columns[col] {
        ColumnData::Float64(v) => finite_values(v, rows).into_iter().map(f64::from_bits).collect(),
        _ => panic!("not a float column"),
    }
}

#[test]
fn test_aggregate_no_groupby_emits_single_global_row() {
    let batch = value_group(vec![Some(1.0), Some(2.0), Some(3.0)], vec!["a", "b", "c"]);
    let plan = plan_aggregate(&batch, &vec![op("v", AggFn::Mean, "m")], &vec![]).unwrap();
    assert_eq!(plan.groups.rows.len(), 1);
    let vals = float_vals(&batch, 0, &plan.groups.rows[0]);
    let m = vals.iter().sum::<f64>() / vals.len() as f64;
    assert!((m - 2.0).abs() < 1e-12);
}

#[test]
fn test_aggregate_missing_field_errors() {
    let batch = value_group(vec![Some(1.0)], vec!["a"]);
    let err = plan_aggregate(&batch, &vec![op("ghost", AggFn::Mean, "m")], &vec!["group".into()]).unwrap_err();
    assert!(matches!(err, StatError::FieldNotFound(f) if f.contains("ghost")));
}

#[test]
fn test_aggregate_count_on_utf8_column() {
    let batch = Table {
        names: vec!["name".into(), "group".into()],
        columns: vec![
            ColumnData::Utf8(vec![Some("alice".into()), Some("bob".into()), None, Some("carol".into()), Some("dave".into()), None]),
            ColumnData::Utf8(strs(vec!["a", "a", "a", "b", "b", "b"])),
        ],
        n_rows: 6,
    };
    let plan = plan_aggregate(&batch, &vec![op("name", AggFn::Count, "n")], &vec!["group".into()]).unwrap();
    assert_eq!(plan.groups.rows.len(), 2);
    let col = plan.op_cols[0].unwrap();
    let groups: Vec<String> = plan.groups.keys.iter().map(group_name).collect();
    let counts: Vec<usize> = plan.groups.rows.iter().map(|r| count_non_null(&batch.columns[col], r)).collect();
    let a = groups.iter().position(|g| g == "a").unwrap();
    let b = groups.iter().position(|g| g == "b").unwrap();
    assert_eq!(counts[a] as u64, 2);
    assert_eq!(counts[b] as u64, 2);
}

#[test]
fn test_aggregate_count_empty_field_uses_row_count() {
    let batch = value_group(vec![Some(1.0), Some(2.0), Some(3.0), Some(4.0)], vec!["a", "a", "b", "b"]);
    let plan = plan_aggregate(&batch, &vec![op("", AggFn::Count, "n")], &vec!["group".into()]).unwrap();
    assert_eq!(plan.op_cols[0], None);
    assert_eq!(plan.groups.rows.len(), 2);
    let groups: Vec<String> = plan.groups.keys.iter().map(group_name).collect();
    let counts: Vec<usize> = plan.groups.rows.iter().map(|r| r.len()).collect();
    let a = groups.iter().position(|g| g == "a").unwrap();
    let b = groups.iter().position(|g| g == "b").unwrap();
    assert_eq!(counts[a] as u64, 2);
    assert_eq!(counts[b] as u64, 2);
}

#[test]
fn test_aggregate_distinct_count() {
    let batch = value_group(
        vec![Some(1.0), Some(1.0), Some(2.0), Some(3.0), Some(3.0), Some(4.0)],
        vec!["a", "a", "a", "b", "b", "b"],
    );
    let plan = plan_aggregate(&batch, &vec![op("v", AggFn::Distinct, "d")], &vec!["group".into()]).unwrap();
    let groups: Vec<String> = plan.groups.keys.iter().map(group_name).collect();
    let d: Vec<usize> = plan
        .groups
        .rows
        .iter()
        .map(|r| match &batch.columns[0] {
            ColumnData::Float64(v) => counting_aggregate(AggFn::Distinct, &finite_values(v, r)).unwrap(),
            _ => unreachable!(),
        })
        .collect();
    let a = groups.iter().position(|g| g == "a").unwrap();
    let b = groups.iter().position(|g| g == "b").unwrap();
    assert_eq!(d[a] as u64, 2);
    assert_eq!(d[b] as u64, 2);
}

#[test]
fn aggregate_checks_ops_before_groupby_and_groups_in_key_order() {
    let batch = Table {
        names: vec!["v".into(), "g".into(), "i".into()],
        columns: vec![
            ColumnData::Float64(fbits(vec![Some(1.0), None, Some(3.0), Some(4.0)])),
            ColumnData::Utf8(vec![Some("b".into()), None, Some("a".into()), Some("b".into())]),
            ColumnData::Int64(vec![Some(1), Some(2), Some(3), Some(4)]),
        ],
        n_rows: 4,
    };
    assert!(matches!(plan_aggregate(&batch, &vec![], &vec![]), Err(StatError::EmptyOps)));
    assert!(matches!(
        plan_aggregate(&batch, &vec![op("i", AggFn::Mean, "m")], &vec!["zz".into()]),
        Err(StatError::FieldNotFloat64(f)) if f == "i"
    ));
    assert!(matches!(
        plan_aggregate(&batch, &vec![op("i", AggFn::Count, "c")], &vec!["i".into()]),
        Err(StatError::GroupbyDtype(f, DType::Int64)) if f == "i"
    ));
    let plan = plan_aggregate(&batch, &vec![op("v", AggFn::Sum, "s")], &vec!["g".into()]).unwrap();
    // The null group cell keys as the empty string and sorts first.
    let names: Vec<String> = plan.groups.keys.iter().map(group_name).collect();
    assert_eq!(names, vec!["", "a", "b"]);
    assert_eq!(plan.groups.rows, vec![vec![1], vec![2], vec![0, 3]]);
}

#[test]
fn aggregate_output_is_group_columns_then_one_float_column_per_op() {
    let batch = Table {
        names: vec!["v".into(), "g".into(), "f".into()],
        columns: vec![
            ColumnData::Float64(fbits(vec![Some(1.0), Some(2.0)])),
            ColumnData::Utf8(strs(vec!["a", "b"])),
            ColumnData::Float64(fbits(vec![Some(0.5), Some(0.5)])),
        ],
        n_rows: 2,
    };
    let ops = vec![op("v", AggFn::Sum, "total"), op("", AggFn::Count, "n")];
    let plan = plan_aggregate(&batch, &ops, &vec!["f".into(), "g".into()]).unwrap();
    let layout: Vec<(String, DType, bool)> =
        plan.fields.iter().map(|f| (f.name.clone(), f.dtype, f.nullable)).collect();
    assert_eq!(
        layout,
        vec![
            ("f".to_string(), DType::Float64, false),
            ("g".to_string(), DType::Utf8, false),
            ("total".to_string(), DType::Float64, true),
            ("n".to_string(), DType::Float64, true),
        ]
    );
    let plan = plan_aggregate(&batch, &vec![op("v", AggFn::Mean, "m")], &vec![]).unwrap();
    assert_eq!(plan.fields.len(), 1);
    assert_eq!(plan.fields[0].name, "m");
}

#[test]
fn null_float_group_cells_key_as_nan() {
    let batch = Table {
        names: vec!["v".into(), "f".into()],
        columns: vec![
            ColumnData::Float64(fbits(vec![Some(1.0), Some(2.0), Some(3.0)])),
            ColumnData::Float64(vec![None, Some(NAN_BITS), Some(0.5f64.to_bits())]),
        ],
        n_rows: 3,
    };
    let plan = plan_aggregate(&batch, &vec![op("v", AggFn::Max, "mx")], &vec!["f".into()]).unwrap();
    assert_eq!(plan.groups.keys, vec![vec![KeyValue::Float(0.5f64.to_bits())], vec![KeyValue::Float(NAN_BITS)]]);
    assert_eq!(plan.groups.rows, vec![vec![2], vec![0, 1]]);
}

#[test]
fn counting_aggregates_of_finite_values() {
    let v = fbits(vec![Some(1.0), None, Some(f64::NAN), Some(1.0), Some(-0.0), Some(0.0)]);
    let vals = finite_values(&v, &vec![0, 1, 2, 3, 4, 5]);
    assert_eq!(vals.len(), 4);
    assert_eq!(counting_aggregate(AggFn::Count, &vals), Some(4));
    assert_eq!(counting_aggregate(AggFn::Distinct, &vals), Some(3));
    assert_eq!(counting_aggregate(AggFn::Mean, &vals), None);
    assert_eq!(count_distinct(&vec![]), 0);
    assert_eq!(counting_aggregate(AggFn::Count, &vec![]), Some(0));
}

#[test]
fn error_extent_input_checks() {
    let batch = value_group(vec![Some(1.0), Some(2.0)], vec!["a", "b"]);
    assert!(matches!(plan_error_extent(&batch, &"zz".to_string(), &vec![]), Err(StatError::FieldNotFound(_))));
    assert!(matches!(plan_error_extent(&batch, &"group".to_string(), &vec![]), Err(StatError::FieldNotFloat64(_))));
    assert!(matches!(
        plan_error_extent(&batch, &"v".to_string(), &vec!["nope".into()]),
        Err(StatError::GroupbyNotFound(g)) if g == "nope"
    ));
    let empty = value_group(vec![], vec![]);
    assert!(matches!(plan_error_extent(&empty, &"v".to_string(), &vec![]), Err(StatError::EmptyInput)));
    let (v, g) = plan_error_extent(&batch, &"v".to_string(), &vec!["group".into()]).unwrap();
    assert_eq!(v, 0);
    assert_eq!(g.rows, vec![vec![0], vec![1]]);
}

#[test]
fn bootstrap_resamples_are_deterministic_and_in_range() {
    let a = bootstrap_indices(42, 5, 100);
    let b = bootstrap_indices(42, 5, 100);
    assert_eq!(a, b);
    assert_eq!(a.len(), 100);
    assert!(a.iter().all(|s| s.len() == 5 && s.iter().all(|&j| j < 5)));
    // The draws are not all the same index.
    assert!(a.iter().flatten().any(|&j| j != a[0][0]));
    assert_ne!(bootstrap_indices(43, 5, 100), a);
    assert!(bootstrap_indices(42, 1, 100).is_empty());
    assert!(bootstrap_indices(42, 5, 0).is_empty());
    let vals = vec![10.0f64, 20.0, 30.0];
    assert_eq!(gather(&vals, &vec![2, 0, 2]), vec![30.0, 10.0, 30.0]);
}

#[test]
fn int_groupby_column_separates_stacks() {
    let batch = Table {
        names: vec!["g".into(), "val".into()],
        columns: vec![
            ColumnData::Int64(vec![Some(1), Some(1), Some(2), Some(2)]),
            ColumnData::Float64(fbits(vec![Some(1.0), Some(2.0), Some(3.0), Some(4.0)])),
        ],
        n_rows: 4,
    };
    let plan = plan_data_stack(&batch, &"val".to_string(), &vec!["g".into()], "zero", &vec![0, 1, 2, 3]).unwrap();
    assert_eq!(plan.offset, Some(StackOffset::Zero));
    let vals: Vec<f64> = match &batch.columns[plan.field] {
        ColumnData::Float64(v) => v.iter().map(|c| c.map(f64::from_bits).unwrap_or(0.0)).collect(),
        _ => unreachable!(),
    };
    let mut y0 = vec![0.0f64; 4];
    let mut y1 = vec![0.0f64; 4];
    for rows in &plan.stacks {
        let mut cumsum = 0.0;
        for &row in rows {
            y0[row] = cumsum;
            y1[row] = cumsum + vals[row];
            cumsum += vals[row];
        }
    }
    assert_eq!(y0[0], 0.0);
    assert_eq!(y1[0], 1.0);
    assert_eq!(y0[1], 1.0);
    assert_eq!(y1[1], 3.0);
    assert_eq!(y0[2], 0.0, "group 2 must reset y0, not merge with group 1");
    assert_eq!(y1[2], 3.0);
    assert_eq!(y0[3], 3.0);
    assert_eq!(y1[3], 7.0);
}

#[test]
fn unknown_offset_returns_error() {
    let batch = Table {
        names: vec!["val".into()],
        columns: vec![ColumnData::Float64(fbits(vec![Some(1.0), Some(2.0)]))],
        n_rows: 2,
    };
    let result = plan_data_stack(&batch, &"val".to_string(), &vec![], "streamgraph", &vec![0, 1]);
    assert!(result.is_err(), "unknown offset must return Err, not silently use zero");
    match result {
        Err(StackError::UnknownOffset(o)) => assert!(o.contains("streamgraph")),
        _ => panic!("expected an unknown-offset error"),
    }
}

#[test]
fn stack_field_and_group_errors() {
    let batch = Table {
        names: vec!["val".into(), "d".into()],
        columns: vec![ColumnData::Float64(vec![]), ColumnData::Other(0)],
        n_rows: 0,
    };
    let none: Vec<usize> = vec![];
    assert!(matches!(plan_data_stack(&batch, &"x".to_string(), &vec![], "zero", &none), Err(StackError::FieldNotFound(_))));
    assert!(matches!(plan_data_stack(&batch, &"d".to_string(), &vec![], "zero", &none), Err(StackError::FieldNotFloat64(_))));
    assert!(matches!(
        plan_data_stack(&batch, &"val".to_string(), &vec!["d".into(), "q".into()], "zero", &none),
        Err(StackError::Group(e)) if e.message().contains("'q' not found")
    ));
    // No rows and a groupby: no stack, so the bad offset is never read.
    let p = plan_data_stack(&batch, &"val".to_string(), &vec!["val".into()], "wobble", &none).unwrap();
    assert!(p.stacks.is_empty());
    assert_eq!(p.offset, None);
    // Without a groupby there is always one stack, so the offset is read.
    assert!(matches!(
        plan_data_stack(&batch, &"val".to_string(), &vec![], "wobble", &none),
        Err(StackError::UnknownOffset(o)) if o == "wobble"
    ));
}

#[test]
fn stacks_follow_the_sort_order_within_each_group() {
    // Groups a, b, a, b; the sort order visits rows 2, 3, 0, 1.
    let batch = value_group(vec![Some(1.0), Some(2.0), Some(3.0), Some(4.0)], vec!["a", "b", "a", "b"]);
    let plan = plan_data_stack(&batch, &"v".to_string(), &vec!["group".into()], "zero", &vec![2, 3, 0, 1]).unwrap();
    assert_eq!(plan.stacks, vec![vec![2, 0], vec![3, 1]]);
    // Without groupby the whole sorted order is one stack.
    let plan = plan_data_stack(&batch, &"v".to_string(), &vec![], "center", &vec![3, 1, 2, 0]).unwrap();
    assert_eq!(plan.stacks, vec![vec![3, 1, 2, 0]]);
    assert_eq!(plan.offset, Some(StackOffset::Center));
    // Cumulative sums follow the stack order: row 2 stacks first in group a.
    let vals = [1.0, 2.0, 3.0, 4.0];
    let plan = plan_data_stack(&batch, &"v".to_string(), &vec!["group".into()], "zero", &vec![2, 3, 0, 1]).unwrap();
    let mut y0 = vec![0.0f64; 4];
    for rows in &plan.stacks {
        let mut cumsum = 0.0;
        for &row in rows {
            y0[row] = cumsum;
            cumsum += vals[row];
        }
    }
    assert_eq!(y0, vec![3.0, 4.0, 0.0, 0.0]);
}

#[test]
fn join_aggregate_preserves_rows() {
    let batch = Table {
        names: vec!["group".into(), "val".into()],
        columns: vec![
            ColumnData::Utf8(strs(vec!["a", "a", "b", "b", "b"])),
            ColumnData::Float64(fbits(vec![Some(1.0), Some(2.0), Some(3.0), Some(4.0), Some(5.0)])),
        ],
        n_rows: 5,
    };
    let (gcols, fcols) =
        plan_join_aggregate(&batch, &vec!["val".to_string()], &vec![AggFn::Mean], &vec!["group".to_string()]).unwrap();
    let keys: Vec<Vec<String>> = (0..batch.n_rows)
        .map(|r| gcols.iter().map(|&c| join_key_text(&batch.columns[c], r).unwrap()).collect())
        .collect();
    let (_order, rows) = partition_by_texts(&keys);
    let per_group: Vec<Vec<f64>> = rows
        .iter()
        .map(|r| {
            let vals = float_vals(&batch, fcols[0], r);
            let m = vals.iter().sum::<f64>() / vals.len() as f64;
            vec![m; r.len()]
        })
        .collect();
    let means: Vec<f64> = scatter(&rows, &per_group, batch.n_rows).into_iter().map(|m| m.unwrap_or(f64::NAN)).collect();
    assert_eq!(means.len(), 5);
    assert_eq!(batch.columns.len() + fcols.len(), 3);
    assert!((means[0] - 1.5).abs() < 1e-12);
    assert!((means[1] - 1.5).abs() < 1e-12);
    assert!((means[2] - 4.0).abs() < 1e-12);
    assert!((means[3] - 4.0).abs() < 1e-12);
    assert!((means[4] - 4.0).abs() < 1e-12);
}

#[test]
fn join_aggregate_checks_and_key_texts() {
    let batch = Table {
        names: vec!["s".into(), "i".into()],
        columns: vec![ColumnData::Utf8(vec![None, Some("x".into())]), ColumnData::Int64(vec![Some(1), None])],
        n_rows: 2,
    };
    assert_eq!(plan_join_aggregate(&batch, &vec![], &vec![], &vec![]), Err(JoinAggregateError::EmptyAggregates));
    assert_eq!(
        plan_join_aggregate(&batch, &vec!["s".into()], &vec![AggFn::Count], &vec!["q".into()]),
        Err(JoinAggregateError::GroupbyNotFound("q".into()))
    );
    assert_eq!(
        plan_join_aggregate(&batch, &vec!["s".into(), "i".into()], &vec![AggFn::Count, AggFn::Sum], &vec![]),
        Err(JoinAggregateError::NotFloat64("i".into()))
    );
    assert_eq!(
        plan_join_aggregate(&batch, &vec!["w".into()], &vec![AggFn::Count], &vec![]),
        Err(JoinAggregateError::FieldNotFound("w".into()))
    );
    assert_eq!(join_key_text(&batch.columns[0], 0), Some("__null__".into()));
    assert_eq!(join_key_text(&batch.columns[0], 1), Some("x".into()));
    assert_eq!(join_key_text(&batch.columns[1], 0), Some("__unknown__".into()));
    assert_eq!(join_key_text(&batch.columns[1], 1), Some("__null__".into()));
    assert_eq!(join_key_text(&ColumnData::Float64(vec![Some(1.5f64.to_bits())]), 0), None);
}

#[test]
fn data_aggregate_no_groupby() {
    let batch = Table {
        names: vec!["val".into()],
        columns: vec![ColumnData::Float64(fbits(vec![Some(1.0), Some(2.0), Some(3.0), Some(4.0), Some(5.0)]))],
        n_rows: 5,
    };
    let (cols, groups) = plan_data_aggregate(&batch, &vec!["val".to_string()], &vec![]).unwrap();
    assert_eq!(groups.rows.len(), 1);
    let total: f64 = float_vals(&batch, cols[0], &groups.rows[0]).iter().sum();
    assert!((total - 15.0).abs() < 1e-12);
}

#[test]
fn data_aggregate_errors() {
    let batch = Table {
        names: vec!["val".into(), "o".into()],
        columns: vec![ColumnData::Float64(vec![]), ColumnData::Other(0)],
        n_rows: 0,
    };
    assert!(matches!(plan_data_aggregate(&batch, &vec![], &vec![]), Err(DataAggregateError::EmptyAggregates)));
    assert!(matches!(
        plan_data_aggregate(&batch, &vec!["zz".into()], &vec![]),
        Err(DataAggregateError::FieldNotFound(f)) if f == "zz"
    ));
    assert!(matches!(
        plan_data_aggregate(&batch, &vec!["val".into()], &vec!["o".into()]),
        Err(DataAggregateError::Group(e)) if e.message().contains("data_aggregate") && e.message().contains("unsupported")
    ));
}

#[test]
fn impute_with_constant() {
    let batch = Table {
        names: vec!["x".into()],
        columns: vec![ColumnData::Float64(fbits(vec![Some(1.0), None, Some(3.0)]))],
        n_rows: 3,
    };
    let plan = plan_impute(&batch, &"x".to_string(), "value", &None).unwrap();
    assert_eq!(plan.method, ImputeMethod::Value);
    assert_eq!(plan.groups.rows, vec![vec![0, 1, 2]]);
    let fills = vec![99.0f64.to_bits()];
    let x = match &batch.columns[plan.column] {
        ColumnData::Float64(v) => impute_cells(v, &plan.groups.rows, &fills),
        _ => unreachable!(),
    };
    assert_eq!(x[1].map(f64::from_bits), Some(99.0));
}

#[test]
fn impute_fills_nan_and_null_and_checks_inputs() {
    let v = fbits(vec![Some(f64::NAN), None, Some(2.0)]);
    let out: Vec<Option<f64>> =
        impute_cells(&v, &vec![vec![0, 1, 2]], &vec![7.0f64.to_bits()]).into_iter().map(|b| b.map(f64::from_bits)).collect();
    assert_eq!(out, vec![Some(7.0), Some(7.0), Some(2.0)]);
    // A row in no group keeps its cell, missing or not.
    let out = impute_cells(&v, &vec![vec![2]], &vec![7.0f64.to_bits()]);
    assert_eq!(out[1], None);
    assert_eq!(out[2], Some(2.0f64.to_bits()));
    let batch = Table {
        names: vec!["x".into(), "s".into()],
        columns: vec![ColumnData::Float64(vec![]), ColumnData::Utf8(vec![])],
        n_rows: 0,
    };
    assert_eq!(plan_impute(&batch, &"q".to_string(), "mean", &None).unwrap_err(), ImputeError::FieldNotFound("q".into()));
    assert_eq!(plan_impute(&batch, &"s".to_string(), "mean", &None).unwrap_err(), ImputeError::FieldNotFloat64("s".into()));
    assert_eq!(plan_impute(&batch, &"x".to_string(), "mode", &None).unwrap_err(), ImputeError::UnknownMethod("mode".into()));
    let err = plan_impute(&batch, &"x".to_string(), "mean", &Some(vec!["g".into()])).unwrap_err();
    assert!(matches!(err, ImputeError::Group(e) if e.message() == "data_impute: groupby column 'g' not found"));
}

#[test]
fn impute_fills_within_groups() {
    // Group a holds 1, missing, 3; group b holds 10, NaN.
    let batch = value_group(
        vec![Some(1.0), None, Some(10.0), Some(3.0), Some(f64::NAN)],
        vec!["a", "a", "b", "a", "b"],
    );
    let plan = plan_impute(&batch, &"v".to_string(), "mean", &Some(vec!["group".into()])).unwrap();
    assert_eq!(plan.column, 0);
    assert_eq!(plan.method, ImputeMethod::Mean);
    assert_eq!(plan.groups.rows, vec![vec![0, 1, 3], vec![2, 4]]);
    let fills: Vec<u64> = plan
        .groups
        .rows
        .iter()
        .map(|rows| {
            let vals = float_vals(&batch, 0, rows);
            (vals.iter().sum::<f64>() / vals.len() as f64).to_bits()
        })
        .collect();
    let cells = match &batch.columns[0] {
        ColumnData::Float64(v) => v.clone(),
        _ => unreachable!(),
    };
    let out: Vec<Option<f64>> =
        impute_cells(&cells, &plan.groups.rows, &fills).into_iter().map(|b| b.map(f64::from_bits)).collect();
    assert_eq!(out, vec![Some(1.0), Some(2.0), Some(10.0), Some(3.0), Some(10.0)]);
    // An empty groupby list is one group of all rows, as no groupby.
    let plan = plan_impute(&batch, &"v".to_string(), "mean", &Some(vec![])).unwrap();
    assert_eq!(plan.groups.rows, vec![vec![0, 1, 2, 3, 4]]);
}

#[test]
fn box_stats_checks_and_groups() {
    let batch = Table {
        names: vec!["v".into(), "g".into(), "o".into()],
        columns: vec![
            ColumnData::Float64(fbits(vec![Some(1.0), Some(2.0), Some(3.0)])),
            ColumnData::Int64(vec![Some(2), None, Some(2)]),
            ColumnData::Other(3),
        ],
        n_rows: 3,
    };
    assert!(matches!(plan_box_stats(&batch, &"x".to_string(), &vec![]), Err(BoxStatsError::FieldNotFound(_))));
    assert!(matches!(plan_box_stats(&batch, &"g".to_string(), &vec![]), Err(BoxStatsError::FieldNotFloat64(_))));
    assert!(matches!(
        plan_box_stats(&batch, &"v".to_string(), &vec!["o".into(), "missing".into()]),
        Err(BoxStatsError::Group(e)) if e.message().contains("unsupported")
    ));
    let (_, g) = plan_box_stats(&batch, &"v".to_string(), &vec!["g".into()]).unwrap();
    assert_eq!(g.order, vec![vec![KeyValue::Null], vec![KeyValue::Int(2)]]);
    assert_eq!(g.rows, vec![vec![1], vec![0, 2]]);
    let empty = Table { names: vec!["v".into()], columns: vec![ColumnData::Float64(vec![])], n_rows: 0 };
    assert!(matches!(plan_box_stats(&empty, &"v".to_string(), &vec![]), Err(BoxStatsError::EmptyInput)));
}

#[test]
fn aggregation_descriptor_checks() {
    assert!(new_aggregate_op("v", "mean", "").is_err());
    assert!(new_aggregate_op("v", "modal", "m").is_err());
    assert!(new_aggregate_op("", "sum", "s").is_err());
    let c = new_aggregate_op("", "count", "n").unwrap();
    assert_eq!(c.fn_, AggFn::Count);
}

/// Stack `vals` along `stacks` with an offset, as the stack transform does.
fn stack_positions(vals: &[f64], stacks: &Vec<Vec<usize>>, offset: Option<StackOffset>) -> (Vec<f64>, Vec<f64>) {
    let (mut y0, mut y1) = (vec![0.0f64; vals.len()], vec![0.0f64; vals.len()]);
    for rows in stacks {
        let mut cumsum = 0.0;
        for &row in rows {
            y0[row] = cumsum;
            y1[row] = cumsum + vals[row];
            cumsum += vals[row];
        }
        match offset {
            Some(StackOffset::Normalize) if cumsum.abs() > 1e-15 => {
                for &row in rows {
                    y0[row] /= cumsum;
                    y1[row] /= cumsum;
                }
            }
            Some(StackOffset::Center) => {
                for &row in rows {
                    y0[row] -= cumsum / 2.0;
                    y1[row] -= cumsum / 2.0;
                }
            }
            _ => {}
        }
    }
    (y0, y1)
}

#[test]
fn stack_zero_offset() {
    let batch = Table {
        names: vec!["cat".into(), "val".into()],
        columns: vec![ColumnData::Utf8(strs(vec!["a", "a", "a"])), ColumnData::Float64(fbits(vec![Some(1.0), Some(2.0), Some(3.0)]))],
        n_rows: 3,
    };
    let plan = plan_data_stack(&batch, &"val".to_string(), &vec!["cat".into()], "zero", &vec![0, 1, 2]).unwrap();
    let (y0, y1) = stack_positions(&[1.0, 2.0, 3.0], &plan.stacks, plan.offset);
    assert_eq!(y0[0], 0.0);
    assert_eq!(y1[0], 1.0);
    assert_eq!(y0[1], 1.0);
    assert_eq!(y1[1], 3.0);
    assert_eq!(y0[2], 3.0);
    assert_eq!(y1[2], 6.0);
}

#[test]
fn stack_normalize_offset() {
    let batch = Table {
        names: vec!["val".into()],
        columns: vec![ColumnData::Float64(fbits(vec![Some(2.0), Some(3.0), Some(5.0)]))],
        n_rows: 3,
    };
    let plan = plan_data_stack(&batch, &"val".to_string(), &vec![], "normalize", &vec![0, 1, 2]).unwrap();
    assert_eq!(plan.offset, Some(StackOffset::Normalize));
    let (_, y1) = stack_positions(&[2.0, 3.0, 5.0], &plan.stacks, plan.offset);
    assert!((y1[2] - 1.0).abs() < 1e-12);
}

#[test]
fn stack_center_offset() {
    let batch = Table {
        names: vec!["val".into()],
        columns: vec![ColumnData::Float64(fbits(vec![Some(2.0), Some(2.0), Some(2.0)]))],
        n_rows: 3,
    };
    let plan = plan_data_stack(&batch, &"val".to_string(), &vec![], "center", &vec![0, 1, 2]).unwrap();
    assert_eq!(plan.offset, Some(StackOffset::Center));
    let (y0, y1) = stack_positions(&[2.0, 2.0, 2.0], &plan.stacks, plan.offset);
    assert!((y0[0] - (-3.0)).abs() < 1e-12);
    assert!((y1[0] - (-1.0)).abs() < 1e-12);
}

#[test]
fn impute_with_mean() {
    let batch = Table {
        names: vec!["x".into()],
        columns: vec![ColumnData::Float64(fbits(vec![Some(1.0), None, Some(3.0), None, Some(5.0)]))],
        n_rows: 5,
    };
    let plan = plan_impute(&batch, &"x".to_string(), "mean", &None).unwrap();
    assert_eq!(plan.method, ImputeMethod::Mean);
    let fills: Vec<u64> = plan
        .groups
        .rows
        .iter()
        .map(|rows| {
            let vals = float_vals(&batch, plan.column, rows);
            (vals.iter().sum::<f64>() / vals.len() as f64).to_bits()
        })
        .collect();
    let x: Vec<f64> = match &batch.columns[plan.column] {
        ColumnData::Float64(v) => impute_cells(v, &plan.groups.rows, &fills)
            .into_iter()
            .map(|b| f64::from_bits(b.unwrap()))
            .collect(),
        _ => unreachable!(),
    };
    assert_eq!(x[0], 1.0);
    assert_eq!(x[1], 3.0);
    assert_eq!(x[2], 3.0);
    assert_eq!(x[3], 3.0);
    assert_eq!(x[4], 5.0);
}

#[test]
fn data_aggregate_grouped_mean() {
    let batch = Table {
        names: vec!["group".into(), "val".into()],
        columns: vec![
            ColumnData::Utf8(strs(vec!["a", "a", "b", "b"])),
            ColumnData::Float64(fbits(vec![Some(1.0), Some(3.0), Some(10.0), Some(20.0)])),
        ],
        n_rows: 4,
    };
    let (cols, groups) = plan_data_aggregate(&batch, &vec!["val".to_string()], &vec!["group".into()]).unwrap();
    assert_eq!(groups.rows.len(), 2);
    let means: Vec<(String, f64)> = groups
        .order
        .iter()
        .zip(&groups.rows)
        .map(|(k, rows)| {
            let vals = float_vals(&batch, cols[0], rows);
            (group_name(k), vals.iter().sum::<f64>() / vals.len() as f64)
        })
        .collect();
    let a = means.iter().find(|(g, _)| g == "a").unwrap().1;
    let b = means.iter().find(|(g, _)| g == "b").unwrap().1;
    assert!((a - 2.0).abs() < 1e-12);
    assert!((b - 15.0).abs() < 1e-12);
}

#[test]
fn bootstrap_ci_byte_deterministic_with_fixed_seed() {
    let values: Vec<u64> = (0..100).map(|i| (i as f64).to_bits()).collect();
    let interval = || {
        let mut means: Vec<f64> = bootstrap_indices(42, values.len(), 1000)
            .iter()
            .map(|idx| {
                let s: Vec<f64> = gather(&values, idx).into_iter().map(f64::from_bits).collect();
                s.iter().sum::<f64>() / s.len() as f64
            })
            .collect();
        means.sort_by(|a, b| a.partial_cmp(b).unwrap());
        (means[25], means[974])
    };
    let (lo_a, hi_a) = interval();
    let (lo_b, hi_b) = interval();
    assert_eq!(lo_a.to_bits(), lo_b.to_bits(), "lower not deterministic");
    assert_eq!(hi_a.to_bits(), hi_b.to_bits(), "upper not deterministic");
}

#[test]
fn data_aggregate_output_is_nullable_group_columns_then_floats() {
    let layout = data_aggregate_output_fields(
        &vec!["k".to_string(), "g".to_string()],
        &vec![DType::Int64, DType::Utf8],
        &vec!["mean_val".to_string()],
    );
    let got: Vec<(String, DType, bool)> = layout.into_iter().map(|f| (f.name, f.dtype, f.nullable)).collect();
    assert_eq!(
        got,
        vec![
            ("k".to_string(), DType::Int64, true),
            ("g".to_string(), DType::Utf8, true),
            ("mean_val".to_string(), DType::Float64, true),
        ]
    );
}
