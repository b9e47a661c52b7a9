use ferrum_core::column::{ColumnData, Table};
use ferrum_core::pipeline::{NamedOutputs, PipelineRun, TransformContext, FINAL_OUTPUT_KEY};

fn one_col(name: &str, values: Vec<f64>) -> Table {
    let n = values.len();
    Table {
        names: vec![name.to_string()],
        columns: vec![ColumnData::Float64(values.into_iter().map(|v| Some(v.to_bits())).collect())],
        n_rows: n,
    }
}

#[test]
fn test_apply_transforms_empty_returns_input_unchanged() {
    let batch = one_col("x", vec![1.0, 2.0, 3.0]);
    let run = PipelineRun::start(batch);
    let outputs = run.finish();
    let out = outputs.get(FINAL_OUTPUT_KEY).unwrap();
    assert_eq!(out.n_rows, 3);
    assert_eq!(out.columns.len(), 1);
    assert_eq!(out.names[0], "x");
}

#[test]
fn named_steps_fan_out_and_unnamed_steps_chain() {
    let mut run = PipelineRun::start(10u32);
    // Unnamed: chains.
    let next = *run.current() + 1;
    run.record_step(None, next, vec![]);
    assert_eq!(*run.current(), 11);
    // Named: published under its name, the chain stays.
    let side = *run.current() * 2;
    run.record_step(Some("double".to_string()), side, vec![("double_extra".to_string(), 99)]);
    assert_eq!(*run.current(), 11);
    assert_eq!(run.outputs().get("double"), Some(&22));
    assert_eq!(run.outputs().get("double_extra"), Some(&99));
    // A secondary output never beats an explicit name.
    let again = *run.current() + 100;
    run.record_step(Some("double".to_string()), again, vec![("double".to_string(), 0)]);
    assert_eq!(run.outputs().get("double"), Some(&111));
    let out = run.finish();
    assert_eq!(out.get(FINAL_OUTPUT_KEY), Some(&11));
    assert_eq!(out.len(), 3);
}

#[test]
fn named_outputs_insert_replaces() {
    let mut m: NamedOutputs<i32> = NamedOutputs::new();
    assert_eq!(m.len(), 0);
    m.insert("a".to_string(), 1);
    m.insert("b".to_string(), 2);
    m.insert("a".to_string(), 3);
    assert_eq!(m.len(), 2);
    assert_eq!(m.get("a"), Some(&3));
    assert_eq!(m.get("c"), None);
}

#[test]
fn default_context_has_no_panel_and_no_outputs() {
    let ctx: TransformContext<u8> = TransformContext::default();
    assert!(ctx.panel_pixel_size.is_none());
    assert_eq!(ctx.named_outputs.len(), 0);
}

#[test]
fn published_entries_hold_each_name_once_with_its_last_batch() {
    let mut run = PipelineRun::start(1u32);
    run.record_step(Some("a".to_string()), 5, vec![("b".to_string(), 6), ("a".to_string(), 7)]);
    run.record_step(None, 2, vec![("b".to_string(), 8)]);
    let mut entries = run.finish().into_entries();
    entries.sort();
    assert_eq!(
        entries,
        vec![("__final__".to_string(), 2), ("a".to_string(), 5), ("b".to_string(), 8)]
    );
}
