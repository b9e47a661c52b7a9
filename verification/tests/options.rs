use ferrum_core::dtype::DType;
use ferrum_core::group_key::KeyValue;
use ferrum_core::grouped_ops::{group_by_text_column, TextGroupError};
use ferrum_core::column::ColumnData;
use ferrum_core::config::{
    bin_choice, check_bin_options, check_glm_options, check_hex_options, check_kde2d_options,
    check_kde_options, kernel_for_name, parse_bandwidth_rule, parse_kde_kernel, BandwidthRule, BinChoice, ConfigError,
    KdeKernel,
};
use ferrum_core::defaults::{default_fold_as, default_kernel, default_n_boot, default_offset, default_stack_as};
use ferrum_core::glm::{
    canonical_link, family_name, link_name, parse_family, parse_link, valid_links_for, validate_pair, GlmFamily,
    GlmLink, GlmParseError,
};
use ferrum_core::hexbin::{hex_cells, hex_id, plan_hex, HexAggregate, HexError};
use ferrum_core::options::{
    parse_bin_rule, parse_error_method, parse_k_depth_kind, parse_sort, parse_stack_offset,
    parse_whisker_string, validate_aggregate_groupby, validate_box_stats, validate_error_extent, BinRule,
    ErrorMethod, KDepthKind, SortOp, SortOrder, SortParseError, SpecError, StackOffset,
    WhiskerRule,
};
use ferrum_core::partition::group_partition_multi;
use ferrum_core::column::Table;

#[test]
fn test_glm_invalid_pair_error_message() {
    let err = validate_pair(GlmFamily::Binomial, GlmLink::Inverse).unwrap_err();
    let msg = err.message();
    assert!(msg.contains("logit"), "error should list 'logit'; got: {msg}");
    assert!(msg.contains("probit"), "error should list 'probit'; got: {msg}");
    assert!(msg.contains("log"), "error should list 'log'; got: {msg}");
}

#[test]
fn test_glm_canonical_link_table() {
    assert_eq!(canonical_link(GlmFamily::Gaussian), GlmLink::Identity);
    assert_eq!(canonical_link(GlmFamily::Binomial), GlmLink::Logit);
    assert_eq!(canonical_link(GlmFamily::Poisson), GlmLink::Log);
    assert_eq!(canonical_link(GlmFamily::Gamma), GlmLink::Inverse);
    assert_eq!(canonical_link(GlmFamily::InverseGaussian), GlmLink::InverseSquared);
}

#[test]
fn glm_names_parse_back_and_canonical_links_are_valid() {
    for f in [GlmFamily::Gaussian, GlmFamily::Binomial, GlmFamily::Poisson, GlmFamily::Gamma, GlmFamily::InverseGaussian] {
        assert_eq!(parse_family(family_name(f)), Ok(f));
        assert!(validate_pair(f, canonical_link(f)).is_ok());
        assert!(valid_links_for(f).contains(&canonical_link(f)));
    }
    for l in [GlmLink::Identity, GlmLink::Log, GlmLink::Logit, GlmLink::Probit, GlmLink::Inverse, GlmLink::InverseSquared, GlmLink::Sqrt] {
        assert_eq!(parse_link(link_name(l)), Ok(l));
    }
    assert_eq!(parse_family("weibull"), Err(GlmParseError::UnknownFamily("weibull".into())));
    assert_eq!(parse_link("cloglog"), Err(GlmParseError::UnknownLink("cloglog".into())));
    assert_eq!(
        validate_pair(GlmFamily::Binomial, GlmLink::Inverse).unwrap_err().message(),
        "Glm: family 'binomial' incompatible with link 'inverse'; valid links: ['logit', 'probit', 'log']"
    );
}

#[test]
fn test_kde_grouped_missing_column_errors() {
    let batch = Table {
        names: vec!["x".into()],
        columns: vec![ColumnData::Float64(vec![Some(1.0f64.to_bits()), Some(2.0f64.to_bits()), Some(3.0f64.to_bits())])],
        n_rows: 3,
    };
    let err = group_partition_multi(&batch, &vec!["ghost".to_string()], "stat_kde").unwrap_err();
    assert!(err.message().contains("ghost"), "err: {}", err.message());
}

#[test]
fn kde_2d_groupby_missing_column_errors() {
    let col = |v: Vec<f64>| ColumnData::Float64(v.into_iter().map(|x| Some(x.to_bits())).collect());
    let b = Table { names: vec!["x".into(), "y".into()], columns: vec![col(vec![1.0, 2.0, 3.0]), col(vec![1.0, 2.0, 3.0])], n_rows: 3 };
    let err = group_partition_multi(&b, &vec!["ghost".to_string()], "stat_kde_2d").unwrap_err();
    assert!(err.message().contains("ghost"), "error message must mention the missing column: {}", err.message());
}

#[test]
fn kde_kernel_names_and_aliases() {
    assert_eq!(parse_kde_kernel("epan"), Some(KdeKernel::Epanechnikov));
    assert_eq!(parse_kde_kernel("uniform"), Some(KdeKernel::Tophat));
    assert_eq!(parse_kde_kernel("cosine"), Some(KdeKernel::Cosine));
    assert_eq!(parse_kde_kernel("laplacian"), None);
    assert_eq!(kernel_for_name("laplacian"), KdeKernel::Gaussian);
    assert_eq!(kernel_for_name(&default_kernel()), KdeKernel::Gaussian);
    assert_eq!(parse_bandwidth_rule("silverman"), Ok(BandwidthRule::Silverman));
    assert_eq!(parse_bandwidth_rule("bogus"), Err(ConfigError::Unknown("bogus".into())));
}

#[test]
fn constructor_checks_in_order() {
    assert_eq!(check_kde_options("", 0), Err(ConfigError::EmptyField));
    assert_eq!(check_kde_options("x", 0), Err(ConfigError::ZeroCount));
    assert_eq!(check_kde_options("x", 512), Ok(()));
    assert_eq!(check_kde2d_options("", "", 0), Err(ConfigError::EmptyAxis("x".into())));
    assert_eq!(check_kde2d_options("a", "", 0), Err(ConfigError::EmptyAxis("y".into())));
    assert_eq!(check_kde2d_options("a", "b", 0), Err(ConfigError::ZeroCount));
    assert_eq!(check_hex_options("x", "y", "mean", false), Err(ConfigError::RequiresField("mean".into())));
    assert_eq!(check_hex_options("x", "y", "mode", false), Err(ConfigError::Unknown("mode".into())));
    assert_eq!(check_hex_options("x", "y", "count", false), Ok(HexAggregate::Count));
    assert_eq!(check_hex_options("", "y", "count", false), Err(ConfigError::EmptyAxis("x and y".into())));
    assert_eq!(check_glm_options("x", "y", 0, 1), Err(ConfigError::ZeroCount));
    assert_eq!(check_glm_options("x", "y", 5, 0), Err(ConfigError::ZeroIterations));
    assert_eq!(check_bin_options("x", Some(0)), Err(ConfigError::ZeroCount));
    assert_eq!(check_bin_options("", Some(0)), Err(ConfigError::EmptyField));
}

#[test]
fn bin_count_wins_over_width_wins_over_sturges() {
    assert_eq!(bin_choice(Some(7), true), BinChoice::Count(7));
    assert_eq!(bin_choice(None, true), BinChoice::Width);
    assert_eq!(bin_choice(None, false), BinChoice::Sturges);
    assert_eq!(parse_bin_rule("fd"), Some(BinRule::FreedmanDiaconis));
    assert_eq!(parse_bin_rule("sturges"), Some(BinRule::Sturges));
    assert_eq!(parse_bin_rule("scott"), None);
}

#[test]
fn hex_mean_and_sum_require_field() {
    let names = vec!["x".to_string(), "y".to_string(), "v".to_string()];
    let dtypes = vec![DType::Float64, DType::Float64, DType::Float64];
    let (x, y) = ("x".to_string(), "y".to_string());
    assert_eq!(plan_hex(&names, &dtypes, &x, &y, "mean", &None).unwrap_err(), HexError::RequiresField("mean".into()));
    assert_eq!(plan_hex(&names, &dtypes, &x, &y, "sum", &None).unwrap_err(), HexError::RequiresField("sum".into()));
    let p = plan_hex(&names, &dtypes, &x, &y, "mean", &Some("v".to_string())).unwrap();
    assert_eq!((p.x, p.y, p.field), (0, 1, Some(2)));
    assert_eq!(p.aggregate, HexAggregate::Mean);
    assert_eq!(plan_hex(&names, &dtypes, &"q".to_string(), &y, "count", &None).unwrap_err(), HexError::ColumnNotFound("q".into()));
    assert_eq!(plan_hex(&names, &dtypes, &x, &y, "mode", &None).unwrap_err(), HexError::UnknownAggregate("mode".into()));
}

#[test]
fn hex_string_column_still_errors() {
    let names = vec!["x".to_string(), "y".to_string()];
    let dtypes = vec![DType::Utf8, DType::Float64];
    let (x, y) = ("x".to_string(), "y".to_string());
    assert_eq!(plan_hex(&names, &dtypes, &x, &y, "count", &None).unwrap_err(), HexError::NotNumeric("x".into()));
}

#[test]
fn hex_numeric_checks_field_then_x_then_y() {
    let names = vec!["x".to_string(), "y".to_string(), "v".to_string()];
    let (x, y, v) = ("x".to_string(), "y".to_string(), Some("v".to_string()));
    let d = |a, b, c| vec![a, b, c];
    assert_eq!(
        plan_hex(&names, &d(DType::Utf8, DType::Utf8, DType::Boolean), &x, &y, "mean", &v).unwrap_err(),
        HexError::NotNumeric("v".into())
    );
    assert_eq!(
        plan_hex(&names, &d(DType::Int64, DType::Utf8, DType::Int32), &x, &y, "mean", &v).unwrap_err(),
        HexError::NotNumeric("y".into())
    );
    let p = plan_hex(&names, &d(DType::Int64, DType::UInt8, DType::Float32), &x, &y, "mean", &v).unwrap();
    assert_eq!(p.field, Some(2));
}

#[test]
fn hex_cells_group_points_in_axial_order() {
    let (cells, rows) = hex_cells(&vec![(1, 0), (0, 5), (1, 0), (-2, 3), (0, 5)]);
    assert_eq!(cells, vec![(-2, 3), (0, 5), (1, 0)]);
    assert_eq!(rows, vec![vec![3], vec![1, 4], vec![0, 2]]);
    assert_eq!(hex_id(0, 0), 0);
    assert_eq!(hex_id(2, -3), 2 * 65536 - 3);
}

#[test]
fn option_parsers() {
    assert_eq!(parse_sort(None, None), Ok(ferrum_core::options::LetterValueSort { op: SortOp::Sum, order: SortOrder::Asc }));
    assert_eq!(parse_sort(Some("count"), Some("desc")).unwrap().order, SortOrder::Desc);
    assert_eq!(parse_sort(Some("mode"), None), Err(SortParseError::UnknownOp("mode".into())));
    assert_eq!(parse_sort(Some("max"), Some("up")), Err(SortParseError::UnknownOrder("up".into())));
    assert_eq!(parse_k_depth_kind("trustworthy"), Some(KDepthKind::Trustworthy));
    assert_eq!(parse_k_depth_kind("deep"), None);
    assert_eq!(parse_stack_offset("center"), Some(StackOffset::Center));
    assert_eq!(parse_stack_offset(&default_offset()), Some(StackOffset::Zero));
    assert_eq!(parse_error_method("iqr"), Some(ErrorMethod::Iqr));
    assert_eq!(parse_whisker_string("min-max"), Some(WhiskerRule::MinMax));
    assert_eq!(parse_whisker_string("max-min"), None);
    assert_eq!(default_stack_as(), ("y0".to_string(), "y1".to_string()));
    assert_eq!(default_fold_as(), ("key".to_string(), "value".to_string()));
    assert_eq!(default_n_boot(), 1000);
}

#[test]
fn spec_validations() {
    let g = |v: &[&str]| v.iter().map(|s| s.to_string()).collect::<Vec<_>>();
    assert_eq!(validate_error_extent("", "ci", &g(&[]), 10), Err(SpecError::EmptyField));
    assert_eq!(validate_error_extent("v", "sd", &g(&[]), 10), Err(SpecError::UnknownMethod("sd".into())));
    assert_eq!(validate_error_extent("v", "ci", &g(&[]), 0), Err(SpecError::ZeroBootstrap));
    assert_eq!(validate_error_extent("v", "stdev", &g(&[]), 0), Ok(ErrorMethod::Stdev));
    assert_eq!(validate_error_extent("v", "ci", &g(&["a", "b", "a"]), 5), Err(SpecError::DuplicateGroupby("a".into())));
    assert_eq!(validate_box_stats("v", &g(&["a", "a"])), Err(SpecError::DuplicateGroupby("a".into())));
    assert_eq!(validate_aggregate_groupby(&g(&["a", "b"])), Ok(()));
}

#[test]
fn density_groups_by_text_column_in_first_appearance_order() {
    let t = Table {
        names: vec!["x".to_string(), "g".to_string(), "n".to_string()],
        columns: vec![
            ColumnData::Float64(vec![Some(1.0f64.to_bits()); 4]),
            ColumnData::Utf8(vec![Some("b".into()), None, Some("a".into()), Some("b".into())]),
            ColumnData::Int64(vec![Some(1); 4]),
        ],
        n_rows: 4,
    };
    let p = group_by_text_column(&t, &"g".to_string()).unwrap();
    assert_eq!(p.order.len(), 2);
    assert!(matches!(&p.order[0][0], KeyValue::Str(s) if s == "b"));
    assert!(matches!(&p.order[1][0], KeyValue::Str(s) if s == "a"));
    assert_eq!(p.rows, vec![vec![0, 3], vec![2]]);
    assert_eq!(p.dtypes, vec![DType::Utf8]);
    assert_eq!(
        group_by_text_column(&t, &"ghost".to_string()).unwrap_err(),
        TextGroupError::NotFound("ghost".to_string())
    );
    assert_eq!(
        group_by_text_column(&t, &"n".to_string()).unwrap_err(),
        TextGroupError::NotUtf8("n".to_string(), DType::Int64)
    );
}
