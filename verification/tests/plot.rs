use vector_db_benchmark::json::Json;
use vector_db_benchmark::json_parse::parse_json;
use vector_db_benchmark::plot::{
    chart_title, collect_series, no_series_error, note_dataset, palette, parse_points, render_svg, schema_warning,
    series_label, sort_points, summary_names, xml_escape, DrawnSeries, Point, PrecisionTick, RateTick,
};

fn j(text: &str) -> Json {
    parse_json(text).unwrap()
}

/// The points of a summary by ascending precision, as numbers.
fn points(summary: &Json) -> Vec<(f64, f64)> {
    sort_points(&parse_points(summary))
        .iter()
        .map(|p| (f64::from_bits(p.precision), f64::from_bits(p.qps)))
        .collect()
}

#[test]
fn parse_points_from_precision_summary() {
    let pts = points(&j(r#"{
        "engine": "e", "dataset": "d",
        "precision_summary": {
            "0.90": {"QPS": 5000.0, "P50 (ms)": 1.0},
            "0.99": {"QPS": 2000.0, "P50 (ms)": 2.0}
        }
    }"#));
    assert_eq!(pts.len(), 2);
    assert!((pts[0].0 - 0.90).abs() < 1e-9 && (pts[0].1 - 5000.0).abs() < 1e-9);
    assert!((pts[1].0 - 0.99).abs() < 1e-9);
}

#[test]
fn parse_points_falls_back_to_search_results() {
    let summary = j(r#"{
        "metrics_schema_version": 2,
        "search_results": [
            {"mean_precision_at_returned": 0.8, "rps": 100.0},
            {"mean_precision_at_returned": 0.95, "rps": 60.0}
        ]
    }"#);
    assert_eq!(parse_points(&summary).len(), 2);
}

#[test]
fn parse_points_reads_legacy_mean_precisions_key() {
    let pts = points(&j(r#"{
        "search_results": [
            {"mean_precisions": 0.8, "rps": 100.0},
            {"mean_precisions": 0.95, "rps": 60.0}
        ]
    }"#));
    assert_eq!(pts.len(), 2);
    assert!((pts[0].0 - 0.8).abs() < 1e-9);
}

#[test]
fn parse_points_prefers_new_key_over_legacy() {
    let pts = points(&j(r#"{
        "search_results": [
            {"mean_precision_at_returned": 0.42, "mean_precisions": 0.99, "rps": 10.0}
        ]
    }"#));
    assert_eq!(pts.len(), 1);
    assert!((pts[0].0 - 0.42).abs() < 1e-9, "{}", pts[0].0);
}

#[test]
fn parse_points_filters_non_finite_precision_keys() {
    let pts = points(&j(r#"{
        "precision_summary": {
            "0.90": {"QPS": 5000.0},
            "NaN":  {"QPS": 100.0},
            "inf":  {"QPS": 200.0}
        }
    }"#));
    assert_eq!(pts.len(), 1);
    assert!((pts[0].0 - 0.90).abs() < 1e-9);
    assert!(pts.iter().all(|p| p.0.is_finite() && p.1.is_finite()));
}

#[test]
fn parse_points_skips_entries_missing_qps() {
    let pts = points(&j(r#"{
        "precision_summary": {
            "0.90": {"P50 (ms)": 1.0}
        },
        "search_results": [
            {"mean_precisions": 0.8, "rps": 100.0}
        ]
    }"#));
    assert_eq!(pts.len(), 1);
    assert!((pts[0].0 - 0.8).abs() < 1e-9);
}

#[test]
fn parse_points_empty_when_no_usable_data() {
    assert!(parse_points(&j("{}")).is_empty());
}

fn drawn(label: &str, points: &[(&str, &str)]) -> DrawnSeries {
    DrawnSeries {
        label: label.to_string(),
        points: points.iter().map(|(x, y)| (x.to_string(), y.to_string())).collect(),
    }
}

#[test]
fn render_svg_is_wellformed_and_contains_series() {
    let rates = [RateTick {
        y: "500.0".to_string(),
        label_y: "504.0".to_string(),
        label: "0".to_string(),
    }];
    let precisions = [PrecisionTick { x: "70.0".to_string(), label: "0.880".to_string() }];
    let series = [drawn("redis <x>", &[("173.3", "83.3"), ("638.0", "333.3")])];
    let svg = render_svg("QPS vs Precision — d", &rates, &precisions, &series);
    assert!(svg.starts_with("<svg"));
    assert!(svg.trim_end().ends_with("</svg>"));
    assert!(svg.contains("<polyline"));
    assert!(svg.contains("redis &lt;x&gt;"));
    assert!(svg.contains(r#"points="173.3,83.3 638.0,333.3""#), "{svg}");
    assert!(svg.contains(r#"<line x1="714" y1="56" x2="736" y2="56" stroke="#), "{svg}");
}

#[test]
fn empty_series_still_renders() {
    let svg = render_svg("empty", &[], &[], &[]);
    assert!(svg.contains("</svg>"));
}

#[test]
fn escapes_name_the_special_characters() {
    assert_eq!(xml_escape("a<b>&c"), "a&lt;b&gt;&amp;c");
    assert_eq!(xml_escape("&lt;"), "&amp;lt;");
    assert_eq!(palette(0), palette(palette_len()));
}

/// How many colours there are before they come again.
fn palette_len() -> usize {
    (1..).find(|i| palette(*i) == palette(0)).unwrap()
}

#[test]
fn points_of_one_precision_keep_their_order() {
    let at = |p: f64, q: f64| Point { precision: p.to_bits(), qps: q.to_bits() };
    let sorted = sort_points(&[at(0.9, 1.0), at(0.5, 2.0), at(0.9, 3.0), at(0.5, 4.0)]);
    assert_eq!(
        sorted.iter().map(|p| f64::from_bits(p.qps)).collect::<Vec<_>>(),
        vec![2.0, 4.0, 1.0, 3.0]
    );
}

#[test]
fn a_chart_is_named_after_what_it_shows() {
    assert_eq!(
        summary_names(&j(r#"{"engine": "e", "dataset": "d"}"#)),
        Some(("e".to_string(), "d".to_string()))
    );
    assert_eq!(summary_names(&j(r#"{"engine": "e"}"#)), None);
    let mut seen: Vec<String> = Vec::new();
    for d in ["d", "c", "d"] {
        note_dataset(&mut seen, d);
    }
    assert_eq!(seen.len(), 2);
    assert_eq!(chart_title(&["d".to_string()]), "QPS vs Precision — d");
    assert_eq!(series_label("e", "d", 1), "e");
    assert!(series_label("e", "d", 2).contains('d'));
    assert!(!no_series_error(&[], &[]).is_empty());
}

#[test]
fn an_older_schema_is_warned_of() {
    assert!(schema_warning(&j("{}")).is_some());
    assert!(schema_warning(&j(r#"{"metrics_schema_version": 2}"#)).is_none());
}

#[test]
fn a_chart_holds_the_summaries_that_are_asked_for() {
    let texts = [
        r#"{"engine": "a", "dataset": "d", "search_results": [
            {"mean_precisions": 0.9, "rps": 10.0}, {"mean_precisions": 0.5, "rps": 20.0}]}"#,
        r#"{"engine": "b", "dataset": "d"}"#,
        r#"{"engine": "c", "dataset": "e", "precision_summary": {"0.80": {"QPS": 5}}}"#,
        r#"{"engine": "", "dataset": "e", "precision_summary": {"0.80": {"QPS": 5}}}"#,
        "{\"engine\": \"z\", ",
    ]
    .map(str::to_string);
    let c = collect_series(&texts, &[true, true, true, true, true], &[], &[]).unwrap_or_else(|e| panic!("{e}"));
    assert_eq!(c.title, "QPS vs Precision — 2 datasets");
    assert_eq!(c.datasets, 2);
    let labels: Vec<&str> = c.series.iter().map(|s| s.label.as_str()).collect();
    assert_eq!(labels, vec!["a (d)", "c (e)"]);
    let rates: Vec<f64> = c.series[0].points.iter().map(|p| f64::from_bits(p.qps)).collect();
    assert_eq!(rates, vec![20.0, 10.0]);

    let one = collect_series(&texts, &[true, true, false, true, true], &[], &[]).unwrap_or_else(|e| panic!("{e}"));
    assert_eq!(one.title, "QPS vs Precision — d");
    assert_eq!(one.series[0].label, "a");

    let e = match collect_series(
        &texts,
        &[false, true, false, true, true],
        &["x*".to_string()],
        &["*".to_string(), "d".to_string()],
    ) {
        Err(e) => e,
        Ok(_) => panic!("nothing is drawn"),
    };
    assert_eq!(e, "No summaries matched engines=[\"x*\"] datasets=[\"*\", \"d\"].");
}
