use ferrum_core::dtype::{unify_dtypes, DType, UnifyError};
use ferrum_core::reshape::{
    compute_row_lengths, count_pieces, flatten_strings, fold_keys, indices_not_in, plan_flatten, plan_fold,
    repeat_by_lengths, repeat_strings_by_lengths, split_trimmed, tile_rows, FlattenSource, ReshapeError,
};

#[test]
fn fold_wide_to_long() {
    let names = vec!["id".to_string(), "a".to_string(), "b".to_string()];
    let dtypes = vec![DType::Utf8, DType::Float64, DType::Float64];
    let id_col: Vec<Option<String>> = vec![Some("x".into()), Some("y".into())];
    let value_cols: Vec<Vec<f64>> = vec![vec![], vec![1.0, 2.0], vec![3.0, 4.0]];
    let fields = vec!["a".to_string(), "b".to_string()];
    let n_rows = 2;

    let plan = plan_fold(&names, &dtypes, &fields).unwrap();
    let keys = fold_keys(&fields, n_rows);
    let sources = tile_rows(fields.len(), n_rows);
    let mut vals: Vec<f64> = Vec::new();
    for &f in &plan.fold_indices {
        vals.extend(value_cols[f].iter().copied());
    }
    let ids: Vec<Option<String>> = sources.iter().map(|&r| id_col[r].clone()).collect();

    // 2 rows * 2 fold fields = 4 output rows; columns: preserved + key + value.
    assert_eq!(keys.len(), 4);
    assert_eq!(plan.preserved.len() + 2, 3);

    assert_eq!(keys[0], "a");
    assert_eq!(keys[1], "a");
    assert_eq!(vals[0], 1.0);
    assert_eq!(vals[1], 2.0);

    assert_eq!(keys[2], "b");
    assert_eq!(keys[3], "b");
    assert_eq!(vals[2], 3.0);
    assert_eq!(vals[3], 4.0);

    assert_eq!(ids[0].as_deref(), Some("x"));
    assert_eq!(ids[1].as_deref(), Some("y"));
    assert_eq!(ids[2].as_deref(), Some("x"));
    assert_eq!(ids[3].as_deref(), Some("y"));
}

#[test]
fn flatten_semicolon_delimited_strings() {
    let names = vec!["id".to_string(), "tags".to_string()];
    let ids = vec![1.0f64, 2.0];
    let tags: Vec<Option<String>> = vec![Some("a;b;c".into()), Some("d;e".into())];
    let plan = plan_flatten(&names, &vec!["tags".to_string()], &None).unwrap();
    assert_eq!(plan.field_indices, vec![1]);
    assert_eq!(plan.preserved, vec![0]);

    let lengths = compute_row_lengths(&FlattenSource::Utf8(tags.clone()), 2);
    let out_ids = repeat_by_lengths(&ids, &lengths);
    let out_tags = flatten_strings(&tags);
    // Row 0 expands to 3, row 1 to 2 → 5 total rows.
    assert_eq!(out_ids.len(), 5);

    assert_eq!(out_ids[0], 1.0);
    assert_eq!(out_ids[1], 1.0);
    assert_eq!(out_ids[2], 1.0);
    assert_eq!(out_ids[3], 2.0);
    assert_eq!(out_ids[4], 2.0);

    assert_eq!(out_tags[0].as_deref(), Some("a"));
    assert_eq!(out_tags[1].as_deref(), Some("b"));
    assert_eq!(out_tags[2].as_deref(), Some("c"));
    assert_eq!(out_tags[3].as_deref(), Some("d"));
    assert_eq!(out_tags[4].as_deref(), Some("e"));
}

#[test]
fn flatten_keeps_null_and_empty_strings_as_one_null_row() {
    let tags: Vec<Option<String>> = vec![None, Some("".into()), Some(" x ; y".into())];
    let lengths = compute_row_lengths(&FlattenSource::Utf8(tags.clone()), 3);
    assert_eq!(lengths, vec![1, 1, 2]);
    assert_eq!(flatten_strings(&tags), vec![None, None, Some("x".into()), Some("y".into())]);
    assert_eq!(
        repeat_strings_by_lengths(&vec![Some("p".into()), None, Some("q".into())], &lengths),
        vec![Some("p".to_string()), None, Some("q".into()), Some("q".into())]
    );
}

#[test]
fn flatten_list_lengths_and_scalar_rows() {
    assert_eq!(compute_row_lengths(&FlattenSource::List(vec![Some(3), None, Some(0)]), 3), vec![3, 0, 0]);
    assert_eq!(compute_row_lengths(&FlattenSource::Scalar(2), 2), vec![1, 1]);
    assert_eq!(repeat_by_lengths(&vec![7u8, 8, 9], &vec![0, 2, 1]), vec![8, 8, 9]);
}

#[test]
fn piece_counts_and_trimmed_pieces() {
    assert_eq!(count_pieces("a;b;;c"), 4);
    assert_eq!(count_pieces(";"), 2);
    assert_eq!(count_pieces("abc"), 1);
    assert_eq!(split_trimmed("  a ;b  ; "), vec!["a".to_string(), "b".to_string(), "".to_string()]);
}

#[test]
fn flatten_output_names_and_errors() {
    let names = vec!["id".to_string(), "t1".to_string(), "t2".to_string()];
    let plan = plan_flatten(&names, &vec!["t1".to_string(), "t2".to_string()], &Some(vec!["first".to_string()])).unwrap();
    assert_eq!(plan.out_names, vec!["first".to_string(), "t2".to_string()]);
    assert_eq!(plan.preserved, vec![0]);
    assert!(matches!(plan_flatten(&names, &vec![], &None), Err(ReshapeError::EmptyFields)));
    assert!(matches!(
        plan_flatten(&names, &vec!["t1".to_string(), "zz".to_string()], &None),
        Err(ReshapeError::ColumnNotFound(f)) if f == "zz"
    ));
}

#[test]
fn fold_value_dtype_unifies_or_errors() {
    let names = vec!["a".to_string(), "b".to_string(), "c".to_string()];
    let dtypes = vec![DType::Int32, DType::Float32, DType::Utf8];
    let plan = plan_fold(&names, &dtypes, &vec!["a".to_string(), "b".to_string()]).unwrap();
    assert_eq!(plan.value_dtype, DType::Float64);
    assert_eq!(plan.preserved, vec![2]);
    assert!(matches!(
        plan_fold(&names, &dtypes, &vec!["a".to_string(), "c".to_string()]),
        Err(ReshapeError::Unify(_))
    ));
    assert!(matches!(plan_fold(&names, &dtypes, &vec![]), Err(ReshapeError::EmptyFields)));
    assert_eq!(unify_dtypes(&vec![DType::Utf8, DType::Utf8]), Ok(DType::Utf8));
    assert!(matches!(unify_dtypes(&vec![]), Err(UnifyError::NoFields)));
}

#[test]
fn fold_layout_tiles_rows_per_field() {
    assert_eq!(tile_rows(3, 2), vec![0, 1, 0, 1, 0, 1]);
    assert_eq!(
        fold_keys(&vec!["p".to_string(), "q".to_string()], 3),
        vec!["p", "p", "p", "q", "q", "q"].into_iter().map(String::from).collect::<Vec<_>>()
    );
    assert_eq!(indices_not_in(5, &vec![3, 1]), vec![0, 2, 4]);
}

#[test]
fn pieces_are_trimmed_of_unicode_white_space() {
    let pieces = split_trimmed("\u{a0} a b \t;\u{3000}c\u{2028};; ");
    assert_eq!(pieces, vec!["a b".to_string(), "c".to_string(), String::new(), String::new()]);
    let s = "\u{85}x\u{85}";
    assert_eq!(split_trimmed(s), vec![s.trim().to_string()]);
}
