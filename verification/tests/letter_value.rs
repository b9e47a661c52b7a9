use ferrum_core::column::{ColumnData, Table};
use ferrum_core::group_key::KeyValue;
use ferrum_core::letter_value::{
    deepest_rows, depth_layout, depth_output_name, k_for_depth, letter_value_groups, level_label,
    outliers_output_name, plan_letter_value, rows_at_depth, LetterValueError, K_MAX_NAMED,
};
use ferrum_core::options::KDepthKind;

fn bits(v: Vec<f64>) -> Vec<Option<u64>> {
    v.into_iter().map(|x| Some(x.to_bits())).collect()
}

fn strs(v: Vec<&str>) -> Vec<Option<String>> {
    v.into_iter().map(|s| Some(s.to_string())).collect()
}

/// The group column of the primary output: one entry per (group, depth) row.
fn primary_groups(values: &Vec<Option<u64>>, groups: &Vec<Option<String>>, kind: KDepthKind) -> Vec<Option<String>> {
    let (order, rows) = letter_value_groups(values, Some(groups));
    let sizes: Vec<usize> = rows.iter().map(|r| r.len()).collect();
    let targets: Vec<i64> = vec![1; sizes.len()];
    let layout = depth_layout(kind, &sizes, &targets);
    layout
        .iter()
        .map(|(g, _)| match &order[*g][0] {
            KeyValue::Str(s) => Some(s.clone()),
            _ => None,
        })
        .collect()
}

fn first_appearance(groups: &[Option<String>]) -> Vec<String> {
    let mut out: Vec<String> = Vec::new();
    for g in groups {
        let s = g.clone().unwrap();
        if !out.contains(&s) {
            out.push(s);
        }
    }
    out
}

#[test]
fn test_letter_value_tukey_k_for_n100() {
    let k = k_for_depth(KDepthKind::Tukey, 100, 1);
    assert_eq!(k, 3);
}

#[test]
fn test_letter_value_proportion_k_for_p007_n200() {
    let target = ((0.007_f64 * 200.0).ceil() as i64).max(1);
    let k = k_for_depth(KDepthKind::Proportion, 200, target);
    assert_eq!(k, 2);
}

#[test]
fn test_letter_value_full_k_for_n20() {
    let k = k_for_depth(KDepthKind::Full, 20, 1);
    assert_eq!(k, 4);
}

#[test]
fn test_letter_value_grouped_3_groups() {
    let groups: Vec<&str> = (0..30).map(|i| ["a", "b", "c"][i % 3]).collect();
    let values: Vec<f64> = (0..30).map(|i| i as f64).collect();
    let out = primary_groups(&bits(values), &strs(groups), KDepthKind::Tukey);
    assert_eq!(out.len(), 3);
    let mut seen = std::collections::BTreeSet::new();
    for g in &out {
        seen.insert(g.clone().unwrap());
    }
    assert_eq!(seen.len(), 3);
}

#[test]
fn test_letter_value_named_outputs_count_eight() {
    let name: Option<String> = None;
    let mut secs: Vec<String> = vec![outliers_output_name(&name)];
    for k in 1..=K_MAX_NAMED {
        secs.push(depth_output_name(&name, k));
    }
    assert_eq!(secs.len(), 9);
    for k in 1..=K_MAX_NAMED {
        let key = format!("depth_{k}");
        assert!(secs.iter().any(|n| n == &key), "missing {key}");
    }
}

#[test]
fn test_letter_value_named_outputs_use_name_prefix() {
    let name: Option<String> = Some("lv".into());
    let mut secs: Vec<String> = vec![outliers_output_name(&name)];
    for k in 1..=K_MAX_NAMED {
        secs.push(depth_output_name(&name, k));
    }
    assert!(secs.iter().any(|n| n == "lv_outliers"));
    for k in 1..=K_MAX_NAMED {
        let key = format!("lv_depth_{k}");
        assert!(secs.iter().any(|n| n == &key), "missing {key}");
    }
}

#[test]
fn test_letter_value_sort_none_is_lexicographic() {
    let groups: Vec<&str> = (0..30).map(|i| ["c", "a", "b"][i % 3]).collect();
    let values: Vec<f64> = (0..30).map(|i| i as f64).collect();
    let out = primary_groups(&bits(values), &strs(groups), KDepthKind::Tukey);
    assert_eq!(first_appearance(&out), vec!["a", "b", "c"]);
}

#[test]
fn k_for_depth_rules_at_their_boundaries() {
    assert_eq!(k_for_depth(KDepthKind::Tukey, 0, 1), 0);
    assert_eq!(k_for_depth(KDepthKind::Tukey, 1, 1), 1);
    assert_eq!(k_for_depth(KDepthKind::Tukey, 31, 1), 1);
    assert_eq!(k_for_depth(KDepthKind::Tukey, 32, 1), 2);
    assert_eq!(k_for_depth(KDepthKind::Tukey, 4095, 1), 8);
    assert_eq!(k_for_depth(KDepthKind::Tukey, 1 << 40, 1), 8);
    assert_eq!(k_for_depth(KDepthKind::Full, 1, 1), 1);
    assert_eq!(k_for_depth(KDepthKind::Full, 255, 1), 7);
    assert_eq!(k_for_depth(KDepthKind::Full, 256, 1), 8);
    // floor(log2(n / 3.32)): 13 / 3.32 = 3.9 → 1; 14 / 3.32 = 4.2 → 2.
    assert_eq!(k_for_depth(KDepthKind::Trustworthy, 13, 1), 1);
    assert_eq!(k_for_depth(KDepthKind::Trustworthy, 14, 1), 2);
    assert_eq!(k_for_depth(KDepthKind::Trustworthy, 5, 1), 1);
    assert_eq!(k_for_depth(KDepthKind::Trustworthy, 100000, 1), 8);
    assert_eq!(k_for_depth(KDepthKind::Proportion, 10, -5), 1);
    assert_eq!(k_for_depth(KDepthKind::Proportion, 10, 3), 3);
    assert_eq!(k_for_depth(KDepthKind::Proportion, 10, 4), 3);
    assert_eq!(k_for_depth(KDepthKind::Proportion, 10, 5), 4);
    assert_eq!(k_for_depth(KDepthKind::Proportion, 10, 129), 8);
    assert_eq!(k_for_depth(KDepthKind::Proportion, 10, i64::MAX), 8);
}

#[test]
fn level_labels_run_from_median_outward() {
    let labels: Vec<String> = (1..=8).map(level_label).collect();
    assert_eq!(labels, vec!["M", "F", "E", "D", "C", "B", "A", "Z"]);
}

#[test]
fn null_and_nan_values_are_left_out_and_null_group_sorts_first() {
    let values = vec![Some(1.0f64.to_bits()), None, Some(f64::NAN.to_bits()), Some(2.0f64.to_bits()), Some(3.0f64.to_bits())];
    let groups = vec![Some("b".to_string()), Some("a".to_string()), Some("a".to_string()), None, Some("b".to_string())];
    let (order, rows) = letter_value_groups(&values, Some(&groups));
    assert_eq!(order, vec![vec![KeyValue::Null], vec![KeyValue::Str("b".into())]]);
    assert_eq!(rows, vec![vec![3], vec![0, 4]]);
}

#[test]
fn depth_layout_rows_and_outermost_rows() {
    let layout = depth_layout(KDepthKind::Full, &vec![4, 2], &vec![1, 1]);
    assert_eq!(layout, vec![(0, 1), (0, 2), (1, 1)]);
    assert_eq!(rows_at_depth(&layout, 1), vec![0, 2]);
    assert_eq!(rows_at_depth(&layout, 2), vec![1]);
    assert!(rows_at_depth(&layout, 3).is_empty());
    assert_eq!(deepest_rows(&layout, 3), vec![Some(1), Some(2), None]);
}

#[test]
fn letter_value_input_errors_in_order() {
    let t = Table {
        names: vec!["v".into(), "g".into(), "i".into()],
        columns: vec![
            ColumnData::Float64(vec![Some(1.0f64.to_bits())]),
            ColumnData::Utf8(vec![Some("a".into())]),
            ColumnData::Int64(vec![Some(1)]),
        ],
        n_rows: 1,
    };
    assert_eq!(plan_letter_value(&t, &"x".to_string(), &None), Err(LetterValueError::ValueNotFound("x".into())));
    assert_eq!(plan_letter_value(&t, &"g".to_string(), &None), Err(LetterValueError::ValueNotFloat64("g".into())));
    assert_eq!(
        plan_letter_value(&t, &"v".to_string(), &Some("h".to_string())),
        Err(LetterValueError::GroupNotFound("h".into()))
    );
    assert!(matches!(
        plan_letter_value(&t, &"v".to_string(), &Some("i".to_string())),
        Err(LetterValueError::GroupNotUtf8(_, _))
    ));
    assert_eq!(plan_letter_value(&t, &"v".to_string(), &Some("g".to_string())), Ok((0, Some(1))));
}
