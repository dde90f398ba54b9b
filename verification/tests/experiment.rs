use vector_db_benchmark::experiment::calibration::{
    calibration_top, canonical_knob_name, finish_calibration, min_value, set_knob, CalibrationNumbers,
    CalibrationOutcome, Observation, Sweep, SweepStep, MAX_VALUE,
};
use vector_db_benchmark::experiment::plan::{
    check_collisions, check_durations_supported, check_options, cleanup_line, dedup_by_type,
    effective_ef, ignored_repetitions, invocation_provenance, is_better, keep_data, keep_data_note,
    keep_data_reason, name_failure, parse_update_search_ratio, plan_points, repetitions,
    search_phases, select_datasets, select_engines, set_timing, set_warm_up, tildeify, warm_up,
    watches, without_vector_index, EngineEntry, IndexClaim, NoVectorRun, Point, RunOptions, Scores,
    Timing, UpdateSearchRatio, WarmUp,
};
use vector_db_benchmark::experiment::results::{
    build_search_result_json, build_upload_result_json, gate_update_attribution, metrics_schema,
    record_rejected_experiment, search_file_name, upload_file_name, warn_of, GateOutcome, InnerSearchParams, ProfileNumbers,
    ResultExtras, SearchParams, SearchResults, UploadStats,
};
use vector_db_benchmark::experiment::reuse::{
    check_corpus_reuse_precondition, classify_reuse_precondition, first_reuse_step,
    reuse_expected_rows, reuse_step_after_probe, CorpusCount, DatasetFacts, ReuseOutcome,
    ReusePrecondition, ReuseStep, Said,
};
use vector_db_benchmark::experiment::run::{
    course_of, is_calibrated, reason_to_skip, Course, Event, Experiment, Pairing, Step,
};
use vector_db_benchmark::ground_truth::{GroundTruthProfile, GroundTruthStats, ShownStats};
use vector_db_benchmark::json::{Json, JsonNumber};
use vector_db_benchmark::json_parse::parse_json;

fn j(text: &str) -> Json {
    parse_json(text).unwrap()
}

fn float(x: f64) -> Json {
    match serde_json::Number::from_f64(x) {
        Some(n) => Json::Number(JsonNumber::Float(n.to_string())),
        None => Json::Null,
    }
}

fn nothing() -> SearchResults {
    SearchResults {
        top: 0,
        requested_queries: 0,
        num_queries: 0,
        failed_queries: 0,
        parallel: 0,
        available_cores: 0,
        offered_queries: 0,
        dropped_queries: 0,
        late_queries: 0,
        oversubscribed: false,
        client_saturated: false,
        saturation_reason: String::new(),
        total_time: float(0.0),
        mean_time: float(0.0),
        client_cpu_cores_used: Json::Null,
        system_cpu_pct: Json::Null,
        target_qps: Json::Null,
        schedule_delay_p50_time: Json::Null,
        schedule_delay_p95_time: Json::Null,
        schedule_delay_p99_time: Json::Null,
        end_to_end_p50_time: Json::Null,
        end_to_end_p95_time: Json::Null,
        end_to_end_p99_time: Json::Null,
        mean_precision_at_returned: float(0.0),
        mean_recall: float(0.0),
        recall_p10: float(0.0),
        mean_mrr: float(0.0),
        mean_ndcg: float(0.0),
        std_time: float(0.0),
        min_time: float(0.0),
        max_time: float(0.0),
        rps: float(0.0),
        p50_time: float(0.0),
        p95_time: float(0.0),
        p99_time: float(0.0),
        latency_hdr: Json::Null,
        precision_at_returned_dist: Json::Null,
        recall_dist: Json::Null,
        mrr_dist: Json::Null,
        ndcg_dist: Json::Null,
        precisions_at_returned: Json::Array(vec![]),
        recalls: Json::Array(vec![]),
        mrrs: Json::Array(vec![]),
        ndcgs: Json::Array(vec![]),
        latencies: Json::Array(vec![]),
        mean_precision_bits: 0,
        rps_bits: 0,
        p95_bits: 0,
        end_to_end_p95_bits: None,
        update_search_ratio: None,
        update_count: None,
        update_rps: None,
        update_attribution: None,
        update_failures: None,
        update_attribution_detail: None,
        update_unattributed: None,
        update_mean_time: None,
        update_p50_time: None,
        update_p95_time: None,
        update_p99_time: None,
        update_latency_hdr: Json::Null,
        update_latencies: None,
    }
}

fn at<'a>(v: &'a Json, key: &str) -> &'a Json {
    v.get(key).unwrap_or_else(|| panic!("no member {}", key))
}

fn params(parallel: Option<u64>, ef: Option<i64>) -> SearchParams {
    SearchParams {
        parallel,
        top: Some(10),
        search_params: Some(InnerSearchParams { ef, extra: None }),
        calibration_param: None,
        calibration_precision: None,
        target_qps: None,
        duration_seconds: None,
        max_lateness_ms: None,
    }
}

fn options() -> RunOptions {
    RunOptions {
        host: "localhost".to_string(),
        engines_file: None,
        engines: vec!["*".to_string()],
        datasets: vec!["*".to_string()],
        allow_partial_configs: false,
        allow_partial_corpus: false,
        dump_raw_latencies: false,
        exit_on_error: true,
        fail_on_dropped_queries: false,
        keep_data: false,
        reset_between_configs: false,
        skip_if_exists: false,
        skip_search: false,
        skip_upload: false,
        skip_vector_index: false,
        repetitions: 1,
        queries: -1,
        parallels: vec![],
        ef_runtime: vec![],
        update_search_ratio: vec![],
        target_qps: 0.0f64.to_bits(),
        search_duration: 0.0f64.to_bits(),
        warmup_seconds: 0.0f64.to_bits(),
        max_lateness_ms: 0.0f64.to_bits(),
    }
}

// ── ratios ──────────────────────────────────────────────────────────────

#[test]
fn parses_valid_ratio() {
    assert_eq!(
        parse_update_search_ratio("1:10"),
        Ok(UpdateSearchRatio { updates: 1, searches: 10 })
    );
}

#[test]
fn allows_zero_updates() {
    assert_eq!(
        parse_update_search_ratio("0:5"),
        Ok(UpdateSearchRatio { updates: 0, searches: 5 })
    );
}

#[test]
fn rejects_wrong_arity() {
    let err = parse_update_search_ratio("1:2:3").unwrap_err();
    assert_eq!(
        err,
        "Invalid update-search-ratio format: '1:2:3'. Expected 'U:S' (e.g., '1:10')"
    );
}

#[test]
fn rejects_invalid_update_count() {
    let err = parse_update_search_ratio("x:2").unwrap_err();
    assert_eq!(err, "Invalid update count: 'x'");
}

#[test]
fn rejects_invalid_search_count() {
    let err = parse_update_search_ratio("1:y").unwrap_err();
    assert_eq!(err, "Invalid search count: 'y'");
}

#[test]
fn rejects_zero_searches() {
    let err = parse_update_search_ratio("1:0").unwrap_err();
    assert_eq!(err, "Search count must be > 0");
}

#[test]
fn phases_start_with_the_pure_search_and_ascend() {
    let texts: Vec<String> =
        ["4:1", "0:5", "1:10", "2:20", "0:1"].iter().map(|s| s.to_string()).collect();
    let r = |u, s| Some(UpdateSearchRatio { updates: u, searches: s });
    assert_eq!(search_phases(&texts).unwrap(), vec![None, r(1, 10), r(2, 20), r(4, 1)]);
    assert_eq!(search_phases(&[]).unwrap(), vec![None]);
    assert_eq!(search_phases(&["1:1".to_string()]).unwrap(), vec![r(1, 1)]);
    assert_eq!(
        search_phases(&["1:1".to_string(), "x:1".to_string()]).unwrap_err(),
        "Invalid update count: 'x'"
    );
}

// ── reuse of a corpus ───────────────────────────────────────────────────

#[test]
fn short_corpus_is_short() {
    assert_eq!(
        classify_reuse_precondition(Ok(400), Some(CorpusCount::exact(200)), "redis-x"),
        ReusePrecondition::Short { actual: 200, expected: 400, approximate: false }
    );
}

#[test]
fn missing_corpus_is_short_not_ok() {
    assert_eq!(
        classify_reuse_precondition(Ok(400), Some(CorpusCount::exact(0)), "redis-x"),
        ReusePrecondition::Short { actual: 0, expected: 400, approximate: false }
    );
}

#[test]
fn exact_match_is_ok() {
    assert_eq!(
        classify_reuse_precondition(Ok(400), Some(CorpusCount::exact(400)), "redis-x"),
        ReusePrecondition::Verified { actual: 400, expected: 400, approximate: false }
    );
}

#[test]
fn surplus_is_classified_as_surplus() {
    assert_eq!(
        classify_reuse_precondition(Ok(400), Some(CorpusCount::exact(401)), "redis-x"),
        ReusePrecondition::Surplus { actual: 401, expected: 400, approximate: false }
    );
}

#[test]
fn approximate_flag_survives_classification() {
    assert_eq!(
        classify_reuse_precondition(Ok(400), Some(CorpusCount::estimated(200)), "pg-x"),
        ReusePrecondition::Short { actual: 200, expected: 400, approximate: true }
    );
    assert_eq!(
        classify_reuse_precondition(Ok(400), Some(CorpusCount::estimated(400)), "pg-x"),
        ReusePrecondition::Verified { actual: 400, expected: 400, approximate: true }
    );
}

#[test]
fn missing_server_side_count_is_the_soft_arm() {
    let verdict = classify_reuse_precondition(Ok(400), None, "chroma-y");
    let why = match &verdict {
        ReusePrecondition::NoServerCount(w) => w.clone(),
        other => panic!("expected NoServerCount, got {other:?}"),
    };
    assert_eq!(verdict.status(), "unverified");
    assert!(why.contains("chroma-y"), "{why}");
    assert!(why.contains("this tool read no server-side row count"), "{why}");
    assert!(why.contains("or the engine replied without one"), "{why}");
    assert_eq!(
        classify_reuse_precondition(Ok(400), Some(CorpusCount::exact(400)), "chroma-y"),
        ReusePrecondition::Verified { actual: 400, expected: 400, approximate: false }
    );
}

#[test]
fn neither_side_available_stays_the_soft_arm() {
    let soft =
        classify_reuse_precondition(Err("corpus not on this machine".to_string()), None, "wv-z");
    assert!(matches!(soft, ReusePrecondition::NoServerCount(_)), "{soft:?}");
    assert_eq!(soft.status(), "unverified");
    let with_count = classify_reuse_precondition(
        Err("corpus not on this machine".to_string()),
        Some(CorpusCount::exact(0)),
        "wv-z",
    );
    assert!(matches!(with_count, ReusePrecondition::CorpusSizeUnknown(_)), "{with_count:?}");
    assert_eq!(with_count.status(), "corpus_size_unknown");
}

#[test]
fn unknown_expected_count_is_its_own_verdict_and_keeps_the_reason() {
    let why = match classify_reuse_precondition(
        Err("measuring the corpus on disk failed: bad npy magic".to_string()),
        Some(CorpusCount::exact(400)),
        "redis-x",
    ) {
        ReusePrecondition::CorpusSizeUnknown(w) => w,
        other => panic!("expected CorpusSizeUnknown, got {other:?}"),
    };
    assert_eq!(why, "measuring the corpus on disk failed: bad npy magic");
    assert_eq!(
        classify_reuse_precondition(Ok(400), Some(CorpusCount::exact(400)), "redis-x"),
        ReusePrecondition::Verified { actual: 400, expected: 400, approximate: false }
    );
}

#[test]
fn zero_expected_never_fires() {
    assert_eq!(
        classify_reuse_precondition(Ok(0), Some(CorpusCount::exact(0)), "redis-x"),
        ReusePrecondition::Verified { actual: 0, expected: 0, approximate: false }
    );
}

fn facts(kind: &str, measured: Result<Option<u64>, String>, declared: Option<i64>) -> DatasetFacts {
    DatasetFacts {
        name: "reuse-unit".to_string(),
        dataset_type: Some(kind.to_string()),
        path: Json::Text("/data/reuse-unit".to_string()),
        measured,
        vector_count: declared,
        may_fall_back_to_declared_count: kind == "sparse" || kind == "h5-multi",
        corpus_path_exists: true,
        has_link: false,
    }
}

#[test]
fn absent_corpus_file_yields_an_error_not_a_silent_none() {
    let (r, w) = reuse_expected_rows(&facts("tar", Ok(None), Some(400)));
    let err = r.expect_err("a corpus that is not on disk has no expected row count");
    assert!(w.is_none());
    assert!(
        err.contains("but its corpus file is not in it") && err.contains("reuse-unit"),
        "{err}"
    );
    assert!(err.contains("never re-downloaded"), "{err}");
    assert!(!err.contains("delete"), "{err}");
    assert!(err.contains("no download link"), "{err}");
    let mut linked = facts("tar", Ok(None), Some(400));
    linked.has_link = true;
    let linked_err = reuse_expected_rows(&linked).0.expect_err("still unmeasurable");
    assert!(linked_err.contains("delete") && linked_err.contains("fetch it fresh"), "{linked_err}");
    let mut gone = facts("tar", Ok(None), Some(400));
    gone.corpus_path_exists = false;
    let gone_err = reuse_expected_rows(&gone).0.expect_err("no corpus, no count");
    assert!(
        gone_err.contains("has no corpus at") && !gone_err.contains("is present at"),
        "{gone_err}"
    );
    assert_eq!(reuse_expected_rows(&facts("tar", Ok(Some(7)), Some(7))).0.unwrap(), 7);
}

#[test]
fn a_failed_measurement_reads_as_a_failure_not_as_a_missing_count() {
    let err = reuse_expected_rows(&facts("tar", Err("bad npy magic".to_string()), Some(400)))
        .0
        .expect_err("a failed header read must not become None");
    assert!(err.contains("measuring the corpus on disk failed"), "{err}");
    assert_eq!(reuse_expected_rows(&facts("tar", Ok(Some(5)), Some(5))).0.unwrap(), 5);
}

#[test]
fn unmeasurable_layout_uses_the_declared_count_without_every_file() {
    assert_eq!(
        reuse_expected_rows(&facts("sparse", Ok(None), Some(100_000))).0.unwrap(),
        100_000
    );
    let err = reuse_expected_rows(&facts("sparse", Ok(None), None))
        .0
        .expect_err("no measurement and no declaration is not a number");
    assert!(err.contains("vector_count") && err.contains("datasets/datasets.json"), "{err}");
    assert!(!err.contains("no corpus at"), "{err}");
    assert!(reuse_expected_rows(&facts("sparse", Ok(None), Some(0))).0.is_err());
}

#[test]
fn a_present_csr_corpus_is_measured_not_trusted() {
    let (r, w) = reuse_expected_rows(&facts("sparse", Ok(Some(150)), Some(999_999)));
    assert_eq!(r.unwrap(), 150);
    let w = w.unwrap();
    assert!(w.contains("declares vector_count 999999") && w.contains("MEASURED 150"), "{w}");
    assert_eq!(reuse_expected_rows(&facts("sparse", Ok(Some(150)), Some(10))).0.unwrap(), 150);
    let (r, w) = reuse_expected_rows(&facts("sparse", Ok(Some(150)), Some(150)));
    assert_eq!(r.unwrap(), 150);
    assert!(w.is_none());
    assert_eq!(reuse_expected_rows(&facts("sparse", Ok(Some(150)), None)).0.unwrap(), 150);
}

#[test]
fn paths_are_shown_without_quotes_where_they_are_texts() {
    let mut f = facts("tar", Ok(None), None);
    f.path = j(r#"{"data": ["a"]}"#);
    f.corpus_path_exists = false;
    let err = reuse_expected_rows(&f).0.unwrap_err();
    assert!(err.contains(r#"'{"data":["a"]}'"#), "{err}");
}

fn check(
    expected: Result<u64, String>,
    actual: Option<CorpusCount>,
    allow: bool,
) -> ReuseOutcome {
    check_corpus_reuse_precondition(expected, None, actual, "redis-handler", "handler-unit", allow)
}

#[test]
fn no_server_side_count_warns_and_continues() {
    let o = check(Ok(400), None, false);
    assert!(!o.rejected);
    assert!(matches!(&o.said, Said::Note(m) if m.contains("SKIPPED")));
    let record = o.verdict.expect("an engine with no probe must not abort the run");
    assert_eq!(at(&record, "status"), &j("\"unverified\""));
    assert_eq!(at(&record, "actual_rows"), &Json::Null);
    assert_eq!(at(&record, "waived_by_allow_partial_corpus"), &Json::Bool(false));
    assert_eq!(at(&record, "expected_rows"), &j("400"));
}

#[test]
fn a_short_exact_count_still_aborts_and_is_recorded_as_rejected() {
    let o = check(Ok(400), Some(CorpusCount::exact(1)), false);
    let err = o.verdict.expect_err("a short exact count must abort");
    assert!(err.contains("the corpus you asked to reuse is incomplete"), "{err}");
    assert!(o.rejected);
    let waived = check(Ok(400), Some(CorpusCount::exact(0)), true);
    assert!(matches!(&waived.said, Said::Warning(m) if m.contains("is empty or missing")));
    assert_eq!(
        at(&waived.verdict.unwrap(), "waived_by_allow_partial_corpus"),
        &Json::Bool(true)
    );
    let estimate = check(Ok(400), Some(CorpusCount::estimated(1)), false);
    assert!(matches!(&estimate.said, Said::Warning(m) if m.contains("ESTIMATE")));
    assert_eq!(at(&estimate.verdict.unwrap(), "status"), &j("\"short\""));
}

#[test]
fn a_run_that_will_not_search_is_not_checked_at_all() {
    assert!(matches!(first_reuse_step(false, true, None), ReuseStep::NotChecked));
    assert!(matches!(first_reuse_step(false, true, Some(&j("{}"))), ReuseStep::NotChecked));
    assert!(matches!(first_reuse_step(true, false, None), ReuseStep::NotChecked));
    assert!(matches!(first_reuse_step(false, true, Some(&j(r#"{"a":"int"}"#))), ReuseStep::Probe));
    assert!(matches!(first_reuse_step(false, false, None), ReuseStep::Probe));
}

#[test]
fn a_failed_probe_is_told_apart_from_a_missing_count() {
    let failed = Err("no permission".to_string());
    match reuse_step_after_probe(&failed, "pg", false) {
        ReuseStep::Concluded(o) => {
            assert!(!o.rejected);
            assert!(o.verdict.unwrap_err().contains("PROBE failure"));
        }
        other => panic!("{other:?}"),
    }
    match reuse_step_after_probe(&failed, "pg", true) {
        ReuseStep::Concluded(o) => {
            let record = o.verdict.unwrap();
            assert_eq!(at(&record, "status"), &j("\"probe_failed\""));
            assert_eq!(at(&record, "detail"), &j("\"no permission\""));
        }
        other => panic!("{other:?}"),
    }
    assert!(matches!(reuse_step_after_probe(&Ok(None), "pg", false), ReuseStep::Compare));
    assert!(matches!(
        reuse_step_after_probe(&Ok(Some(CorpusCount::exact(3))), "pg", false),
        ReuseStep::Fetch(CorpusCount { rows: 3, approximate: false })
    ));
}

#[test]
fn other_verdicts_on_a_reused_corpus() {
    let ok = check(Ok(400), Some(CorpusCount::exact(400)), false);
    assert!(matches!(&ok.said, Said::Note(m) if m.contains("400 of 400 expected rows")));
    assert_eq!(at(&ok.verdict.unwrap(), "status"), &j("\"verified\""));
    let more = check(Ok(400), Some(CorpusCount::estimated(500)), false);
    assert!(matches!(&more.said, Said::Warning(m) if m.contains("≈500 rows")));
    assert_eq!(at(&more.verdict.unwrap(), "status"), &j("\"surplus\""));
    let o = check_corpus_reuse_precondition(
        Err("no count".to_string()),
        Some("404".to_string()),
        Some(CorpusCount::exact(1)),
        "e",
        "d",
        false,
    );
    assert!(o.rejected);
    assert!(o
        .verdict
        .unwrap_err()
        .contains("(no count; resolving the dataset failed with: 404)"));
    let waived = check(Err("no count".to_string()), Some(CorpusCount::exact(1)), true);
    let record = waived.verdict.unwrap();
    assert_eq!(at(&record, "detail"), &j("\"no count\""));
    assert_eq!(at(&record, "expected_rows"), &Json::Null);
}

// ── updates that hit no row ─────────────────────────────────────────────

fn updates(applied: u64, unattributed: u64, failed: u64) -> SearchResults {
    let mut r = nothing();
    r.update_count = Some(applied);
    r.update_failures = Some(failed);
    r.update_unattributed = Some(unattributed);
    r.update_attribution_detail = Some(
        "VADD replies 1 when it adds a new element and 0 when it overwrites one".to_string(),
    );
    r
}

fn rejection(o: GateOutcome) -> String {
    match o {
        GateOutcome::Rejected(m) => m,
        _ => panic!("must be rejected"),
    }
}

fn passed(o: GateOutcome) -> SearchResults {
    match o {
        GateOutcome::Accepted(r) => r,
        GateOutcome::Waived { results, .. } => results,
        GateOutcome::Rejected(m) => panic!("{m}"),
    }
}

#[test]
fn unattributed_updates_reject_the_point_by_default() {
    let err = rejection(gate_update_attribution(updates(0, 399, 0), false, false));
    assert!(err.contains("399 of 399"), "{err}");
    assert!(err.contains("Signal read: VADD replies 1 when it adds a new element"), "{err}");
    assert!(err.contains("--allow-partial-corpus"), "{err}");
}

#[test]
fn the_rejection_counts_every_dispatched_write_in_its_denominator() {
    let err = rejection(gate_update_attribution(updates(90, 7, 3), false, false));
    assert!(err.contains("7 of 100"), "{err}");
}

#[test]
fn allow_partial_corpus_waives_the_rejection_and_keeps_the_count() {
    let r = passed(gate_update_attribution(updates(10, 5, 0), true, false));
    assert_eq!(r.update_unattributed, Some(5));
}

#[test]
fn a_clean_run_passes_with_and_without_the_waiver() {
    for waived in [false, true] {
        let r = passed(gate_update_attribution(updates(1000, 0, 0), waived, false));
        assert_eq!(r.update_unattributed, Some(0));
        assert_eq!(r.update_count, Some(1000));
    }
}

#[test]
fn an_estimated_corpus_size_waives_the_rejection_like_the_reuse_check_does() {
    let r = passed(gate_update_attribution(updates(10, 5, 0), false, true));
    assert_eq!(r.update_unattributed, Some(5));
    rejection(gate_update_attribution(updates(10, 5, 0), false, false));
}

#[test]
fn an_ack_only_run_has_nothing_to_adjudicate_and_passes() {
    let mut r = updates(10, 0, 0);
    r.update_unattributed = None;
    r.update_attribution = Some("ack_only".to_string());
    assert!(passed(gate_update_attribution(r, false, false)).update_unattributed.is_none());
}

#[test]
fn a_search_only_run_is_untouched_by_the_gate() {
    assert!(passed(gate_update_attribution(nothing(), false, false))
        .update_unattributed
        .is_none());
}

#[test]
fn a_rejected_mixed_point_is_recorded_for_the_summary() {
    let reason = rejection(gate_update_attribution(updates(0, 100, 0), false, false));
    assert!(reason.contains("dispatched updates"), "{reason}");
    let record = record_rejected_experiment("m9bad", "ds9bad", &reason);
    assert_eq!(record.get("engine").and_then(|v| v.as_str()), Some("m9bad"));
    assert_eq!(record.get("dataset").and_then(|v| v.as_str()), Some("ds9bad"));
    assert_eq!(record.get("reason").and_then(|v| v.as_str()), Some(reason.as_str()));
}

// ── documents ───────────────────────────────────────────────────────────

fn rows(n: usize, width: usize) -> Vec<Vec<i64>> {
    (0..n).map(|q| ((q * 1000) as i64..(q * 1000 + width) as i64).collect()).collect()
}

fn ceiling(s: &GroundTruthStats) -> f64 {
    s.width_sum as f64 / s.queries as f64 / s.top as f64
}

fn numbers(s: Option<&GroundTruthStats>) -> ProfileNumbers {
    match s {
        Some(s) => ProfileNumbers {
            mean_width: float(s.width_sum as f64 / s.queries as f64),
            ceiling: float(ceiling(s)),
            ceiling_shown: format!("{:.4}", ceiling(s)),
        },
        None => ProfileNumbers {
            mean_width: Json::Null,
            ceiling: Json::Null,
            ceiling_shown: String::new(),
        },
    }
}

fn extras(engine_params: Json) -> ResultExtras {
    ResultExtras {
        calibration: None,
        corpus_reuse: None,
        number_of_shards: None,
        engine_params,
        server_metadata_before: None,
        server_metadata_after: None,
        dump_raw_latencies: false,
    }
}

#[test]
fn schema_never_reuses_the_upstream_key_name() {
    let schema = metrics_schema(None, &numbers(None));
    assert!(schema.get("mean_precisions").is_none());
    assert!(schema.get("mean_precision_at_returned").is_some());
    assert!(schema.get("upstream_qdrant_mean_precisions").is_some());
    assert_eq!(at(&schema, "version"), &j("2"));
}

#[test]
fn full_width_ground_truth_declares_mean_recall_comparable() {
    let stats = GroundTruthProfile::from_rows(rows(100, 100)).stats(100).unwrap();
    let schema = metrics_schema(Some(stats), &numbers(Some(&stats)));
    assert_eq!(at(&schema, "comparable_to_upstream_mean_precisions"), &j("\"mean_recall\""));
    assert!(schema.get("comparability_note").is_none());
    let gt = at(&schema, "ground_truth");
    assert_eq!(at(gt, "queries_with_fewer_than_top_neighbours"), &j("0"));
    assert_eq!(at(gt, "recall_at_top_ceiling"), &j("1.0"));
}

#[test]
fn short_ground_truth_declares_nothing_comparable() {
    let mut r = rows(9, 100);
    r.push(vec![42]);
    let stats = GroundTruthProfile::from_rows(r).stats(100).unwrap();
    let schema = metrics_schema(Some(stats), &numbers(Some(&stats)));
    assert_eq!(at(&schema, "comparable_to_upstream_mean_precisions"), &Json::Null);
    let note = at(&schema, "comparability_note").as_str().unwrap();
    assert!(note.contains("1 of 10"), "{}", note);
    assert!(note.contains("0.9010"), "{}", note);
}

fn finish(
    param: &str,
    value: i64,
    achieved: f64,
    target: f64,
    ceiling: Option<f64>,
    note: Option<String>,
    min: i64,
    max: i64,
) -> CalibrationOutcome {
    let n = CalibrationNumbers {
        reached_target: achieved + 1e-9 >= target,
        achieved: float(achieved),
        target: float(target),
        ceiling: ceiling.map(float).unwrap_or(Json::Null),
        achieved_shown: format!("{:.4}", achieved),
        target_shown: format!("{:.4}", target),
    };
    let out = finish_calibration(param, value, &n, note, min, max);
    assert_eq!(out.warning(&n).is_some(), out.note.is_some());
    out
}

#[test]
fn calibration_that_reaches_its_target_is_reported_clean() {
    let out = finish("ef", 128, 0.9612, 0.95, Some(1.0), None, 10, 1000);
    assert!(out.reached_target);
    assert!(out.note.is_none());
    let doc = out.to_json();
    assert_eq!(at(&doc, "metric"), &j("\"mean_precision_at_returned\""));
    assert_eq!(at(&doc, "reached_target"), &Json::Bool(true));
    assert_eq!(at(&doc, "value"), &j("128"));
}

#[test]
fn unreachable_target_is_reported_not_silently_accepted() {
    let stats = GroundTruthProfile::from_rows(vec![vec![1, 2, 3]; 8]).stats(100).unwrap();
    let c = ceiling(&stats);
    let shown = ShownStats {
        target: format!("{:.4}", 0.95),
        mean_width: format!("{:.2}", 3.0),
        ceiling: format!("{:.4}", c),
    };
    let note = stats.unreachable_target_note(0.95 > c + 1e-9, &shown);
    assert!(note.is_some(), "0.95 vs a 0.03 ceiling must be flagged");
    let out = finish("ef", 1000, 0.03, 0.95, Some(c), note, 100, 1000);
    assert!(!out.reached_target);
    let doc = out.to_json();
    assert_eq!(at(&doc, "reached_target"), &Json::Bool(false));
    assert_eq!(at(&doc, "ground_truth_ceiling"), &float(0.03));
    assert!(at(&doc, "note").as_str().unwrap().contains("ceiling"));
}

#[test]
fn target_missed_without_a_ceiling_explanation_still_warns() {
    let out = finish("ef", 1000, 0.80, 0.95, Some(1.0), None, 10, 1000);
    assert!(!out.reached_target);
    let note = out.note.unwrap();
    assert!(note.contains("pinned at the maximum swept value"), "{}", note);
}

#[test]
fn emitted_document_has_no_colliding_key_names() {
    let mut results = nothing();
    results.top = 10;
    results.mean_precision_at_returned = float(1.0);
    results.mean_recall = float(0.5);
    results.precisions_at_returned = j("[1.0, 1.0]");
    results.recalls = j("[0.5, 0.5]");
    results.mrrs = j("[1.0, 1.0]");
    results.ndcgs = j("[1.0, 1.0]");
    results.latencies = j("[0.001, 0.002]");
    let gt = GroundTruthProfile::from_rows(rows(2, 10));
    let stats = gt.stats(10).unwrap();
    let mut e = extras(j("{}"));
    e.dump_raw_latencies = true;
    let doc = build_search_result_json(
        "redis-test",
        "glove-25-angular",
        &params(Some(1), None),
        &Json::Null,
        &results,
        Some(&gt),
        &numbers(Some(&stats)),
        &e,
    );
    let res = at(&doc, "results");
    assert!(res.get("mean_precisions").is_none());
    assert!(res.get("precisions").is_none());
    assert!(res.get("precision_dist").is_none());
    assert_eq!(at(res, "mean_precision_at_returned"), &j("1.0"));
    assert_eq!(at(res, "mean_recall"), &j("0.5"));
    assert_eq!(at(res, "precisions_at_returned"), &j("[1.0, 1.0]"));
    assert!(res.get("precision_at_returned_dist").is_some());
    let schema = at(&doc, "metrics_schema");
    assert_eq!(at(schema, "version"), &j("2"));
    assert_eq!(at(at(schema, "ground_truth"), "top"), &j("10"));
    assert_eq!(at(schema, "comparable_to_upstream_mean_precisions"), &j("\"mean_recall\""));
    assert!(doc.get("server_metadata").is_none());
}

#[test]
fn emitted_document_carries_the_calibration_outcome() {
    let outcome = finish("ef", 1000, 0.24, 0.95, Some(0.25), None, 100, 1000);
    let mut results = nothing();
    results.top = 100;
    let mut e = extras(j("{}"));
    e.calibration = Some(outcome.to_json());
    let doc = build_search_result_json(
        "redis-test",
        "h-and-m-2048-angular",
        &params(Some(1), None),
        &Json::Null,
        &results,
        None,
        &numbers(None),
        &e,
    );
    let cal = at(at(&doc, "params"), "calibration");
    assert_eq!(at(cal, "reached_target"), &Json::Bool(false));
    assert_eq!(at(cal, "metric"), &j("\"mean_precision_at_returned\""));
    assert_eq!(at(cal, "value"), &j("1000"));
    assert!(at(cal, "note").as_str().unwrap().contains("topped out"));
}

fn doc(engine_params: Json) -> Json {
    let mut results = nothing();
    results.top = 10;
    build_search_result_json(
        "redis-m-16-ef-128",
        "glove-100-angular",
        &params(Some(8), None),
        &Json::Null,
        &results,
        None,
        &numbers(None),
        &extras(engine_params),
    )
}

#[test]
fn search_result_carries_the_provenance_block() {
    let d = doc(j(r#"{
        "schema_version": 1,
        "declared": {"collection_params": {"hnsw_config": {"M": 16}}},
        "effective": {"m": 16},
        "env": {"REDIS_PORT": null},
        "overridden": [],
        "ignored_declared_keys": []
    }"#));
    let ep = at(at(&d, "params"), "engine_params");
    assert_eq!(at(ep, "schema_version"), &j("1"));
    let declared = at(at(ep, "declared"), "collection_params");
    assert_eq!(at(at(declared, "hnsw_config"), "M"), &j("16"));
    assert_eq!(at(at(ep, "effective"), "m"), &j("16"));
    assert_eq!(at(at(&d, "params"), "parallel"), &j("8"));
    assert_eq!(at(at(&d, "params"), "top"), &j("10"));
}

#[test]
fn upload_result_carries_the_provenance_block_tagged_upload() {
    let stats = UploadStats {
        parallel: 8,
        batch_size: 64,
        upload_time: float(0.0),
        total_time: float(0.0),
        upload_count: 0,
        memory_usage: Json::Null,
    };
    let ep = j(r#"{"schema_version": 1, "phase": "upload", "effective": {"upload_parallel": 8}}"#);
    let d = build_upload_result_json("redis-x", "glove", &stats, None, &ep);
    let block = at(at(&d, "params"), "engine_params");
    assert_eq!(at(block, "phase"), &j("\"upload\""));
    assert_eq!(at(at(block, "effective"), "upload_parallel"), &j("8"));
    assert_eq!(at(at(&d, "params"), "parallel"), &j("8"));
    assert_eq!(at(at(&d, "results"), "upload_count"), &j("0"));
    let other = build_upload_result_json(
        "redis-x",
        "glove",
        &stats,
        Some(&j("3")),
        &j(r#"{"schema_version": 1, "phase": "upload", "effective": {"upload_parallel": 32}}"#),
    );
    assert_ne!(d, other);
    assert_eq!(at(&d, "results"), at(&other, "results"));
    assert_eq!(at(at(&other, "params"), "number_of_shards"), &j("3"));
}

#[test]
fn the_json_emitter_writes_the_engines_own_tier_and_counts_not_constants() {
    let mixed = |attribution: &str, unattributed: Option<u64>| {
        let mut r = nothing();
        r.top = 10;
        r.latencies = j("[0.001]");
        r.update_search_ratio = Some("1:5".to_string());
        r.update_count = Some(7);
        r.update_rps = Some(float(3.5));
        r.update_failures = Some(4);
        r.update_attribution = Some(attribution.to_string());
        r.update_unattributed = unattributed;
        r.update_attribution_detail = Some("upsertDatapoints returns an empty body".to_string());
        build_search_result_json(
            "vertex-test",
            "random-100",
            &params(Some(1), None),
            &Json::Null,
            &r,
            None,
            &numbers(None),
            &extras(j("{}")),
        )
    };
    let d = mixed("ack_only", None);
    let res = at(&d, "results");
    assert_eq!(at(res, "update_attribution"), &j("\"ack_only\""));
    assert_eq!(at(res, "update_failures"), &j("4"));
    assert_eq!(
        at(res, "update_attribution_detail"),
        &j("\"upsertDatapoints returns an empty body\"")
    );
    assert!(res.get("update_unattributed").is_none());
    let d2 = mixed("corpus_row", Some(0));
    assert_eq!(at(at(&d2, "results"), "update_unattributed"), &j("0"));
    assert_eq!(at(at(&d2, "results"), "update_attribution"), &j("\"corpus_row\""));
}

#[test]
fn metadata_of_the_server_is_written_where_it_is_known() {
    let mut e = extras(j("{}"));
    e.server_metadata_before = Some(j("1"));
    let d = build_search_result_json(
        "e",
        "d",
        &params(None, None),
        &Json::Null,
        &nothing(),
        None,
        &numbers(None),
        &e,
    );
    assert_eq!(at(&d, "server_metadata"), &j(r#"{"after":null,"before":1}"#));
    assert_eq!(at(at(&d, "params"), "parallel"), &j("1"));
}

#[test]
fn invocation_reaches_the_artifact_with_host_and_skip_upload() {
    let mut alpha = options();
    alpha.host = "db-alpha".to_string();
    let mut beta = options();
    beta.host = "db-beta".to_string();
    beta.skip_upload = true;
    let inv = |o: &RunOptions| invocation_provenance(o, &float(0.0), "~/c", "~/r");
    let (a, b) = (inv(&alpha), inv(&beta));
    assert_eq!(at(&a, "host"), &j("\"db-alpha\""));
    assert_eq!(at(&b, "host"), &j("\"db-beta\""));
    assert_eq!(at(&a, "skip_upload"), &Json::Bool(false));
    assert_eq!(at(&b, "skip_upload"), &Json::Bool(true));
    assert_ne!(doc(a), doc(b));
}

#[test]
fn the_invocation_names_every_flag_that_changes_what_is_measured() {
    let inv = invocation_provenance(&options(), &float(1.5), "~/c", "~/r");
    for key in [
        "host", "engines_file", "allow_partial_configs", "allow_partial_corpus",
        "dump_raw_latencies", "exit_on_error", "fail_on_dropped_queries", "keep_data",
        "reset_between_configs", "skip_if_exists", "skip_search", "skip_upload",
        "skip_vector_index", "repetitions", "warmup_seconds", "configurations_dir", "results_dir",
    ] {
        assert!(inv.get(key).is_some(), "{key}");
    }
    assert_eq!(at(&inv, "warmup_seconds"), &j("1.5"));
}

#[test]
fn files_are_named_by_what_they_hold() {
    assert_eq!(
        search_file_name("e", "d", 3, Some(&"1:10".to_string()), 42, "2024-01-02-03-04-05"),
        "e-d-search-3-mixed-1x10-42-2024-01-02-03-04-05.json"
    );
    assert_eq!(search_file_name("e", "d", 0, None, 1, "t"), "e-d-search-0-1-t.json");
    assert_eq!(upload_file_name("e", "d", 7, "t"), "e-d-upload-0-7-t.json");
}

#[test]
fn results_are_warned_of() {
    let mut r = nothing();
    assert!(warn_of(&r, "cpu n/a").is_empty());
    r.failed_queries = 2;
    r.requested_queries = 10;
    r.num_queries = 8;
    r.dropped_queries = 5;
    r.client_saturated = true;
    r.saturation_reason = "cpu".to_string();
    let w = warn_of(&r, "3.9 cores");
    assert_eq!(w.len(), 2);
    assert!(w[0].contains("2/10 queries FAILED (only 8 succeeded)"), "{}", w[0]);
    assert!(w[1].contains("(cpu) — client used 3.9 cores"), "{}", w[1]);
    r.target_qps = float(100.0);
    assert!(warn_of(&r, "x")[1].contains("5 offered requests were dropped"));
}

// ── calibration ─────────────────────────────────────────────────────────

fn run_sweep(top: Option<i64>, target: f64, curve: impl Fn(i64) -> f64) -> (i64, f64, Vec<i64>) {
    let mut sweep = Sweep::begin(top);
    let mut tried = vec![sweep.current];
    loop {
        let now = curve(sweep.current);
        let before = sweep.previous_precision.map(f64::from_bits);
        let seen = Observation {
            precision: now.to_bits(),
            on_target: (now - target).abs() < 1e-9,
            previous_is_closer: before
                .is_some_and(|b| (b - target).abs() < (now - target).abs()),
        };
        match sweep.calibrate(target.to_bits(), seen) {
            SweepStep::Try(v) => tried.push(v),
            SweepStep::Finished { value, precision } => {
                return (value, f64::from_bits(precision), tried)
            }
        }
    }
}

#[test]
fn sweeps_find_the_value_that_meets_the_target() {
    let (value, precision, tried) = run_sweep(Some(10), 0.5, |v| v as f64 / 1000.0);
    assert_eq!((value, precision), (500, 0.5));
    assert_eq!(tried[0], 505);
}

#[test]
fn sweeps_end_at_the_largest_value_where_the_target_is_out_of_reach() {
    let (value, precision, tried) = run_sweep(Some(100), 0.95, |_| 0.03);
    assert_eq!((value, precision), (999, 0.03));
    assert!(tried.len() <= 11, "{tried:?}");
    let (value, _, _) = run_sweep(Some(100), 0.5, |_| 0.9);
    assert_eq!(value, 100);
    assert_eq!(run_sweep(Some(1000), 0.5, |_| 0.9).0, 1000);
    assert!(run_sweep(Some(2000), 0.5, |_| 0.9).0 >= 1000);
    assert_eq!(min_value(None), 10);
    assert_eq!(MAX_VALUE, 1000);
}

#[test]
fn sweeps_report_what_was_measured() {
    assert_eq!(run_sweep(Some(1000), 0.3, |_| 0.9), (1000, 0.9, vec![1000]));
    let mut sweep = Sweep::begin(Some(1000));
    let seen = Observation {
        precision: 0.9f64.to_bits(),
        on_target: false,
        previous_is_closer: true,
    };
    assert_eq!(
        sweep.calibrate(0.3f64.to_bits(), seen),
        SweepStep::Finished { value: 1000, precision: 0.9f64.to_bits() }
    );
    for (top, target) in [(Some(10), 0.37), (Some(990), 0.1), (None, 0.999), (Some(3000), 0.2)] {
        let curve = |v: i64| (v as f64 / 1000.0).sqrt();
        let (value, precision, tried) = run_sweep(top, target, curve);
        assert_eq!(precision, curve(value));
        assert!(tried.contains(&value));
    }
}

#[test]
fn knobs_are_set_where_engines_read_them() {
    assert_eq!(canonical_knob_name("EF"), "ef");
    assert_eq!(canonical_knob_name("nprobe"), "nprobe");
    let mut p = params(None, None);
    set_knob(&mut p, "EF", 64);
    assert_eq!(p.search_params.as_ref().unwrap().ef, Some(64));
    p.search_params = None;
    set_knob(&mut p, "nprobe", 3);
    let inner = p.search_params.unwrap();
    assert_eq!(inner.ef, None);
    assert_eq!(inner.extra.unwrap(), vec![("nprobe".to_string(), j("3"))]);
}

// ── planning ────────────────────────────────────────────────────────────

#[test]
fn options_are_checked() {
    assert!(check_options(&options()).is_ok());
    let with = |f: &dyn Fn(&mut RunOptions)| {
        let mut o = options();
        f(&mut o);
        check_options(&o)
    };
    let b = |x: f64| x.to_bits();
    assert_eq!(
        with(&|o| o.target_qps = b(f64::NAN)).unwrap_err(),
        "--target-qps must be finite and greater than zero"
    );
    assert_eq!(
        with(&|o| o.target_qps = b(-1.0)).unwrap_err(),
        "--target-qps must be finite and greater than zero"
    );
    assert_eq!(
        with(&|o| o.target_qps = b(10.0)).unwrap_err(),
        "--search-duration is required and must be greater than zero with --target-qps"
    );
    let timed = |o: &mut RunOptions| {
        o.target_qps = b(10.0);
        o.search_duration = b(5.0);
    };
    assert!(with(&timed).is_ok());
    assert_eq!(
        with(&|o| { timed(o); o.warmup_seconds = b(-1.0) }).unwrap_err(),
        "--warmup-seconds must be finite and non-negative"
    );
    assert_eq!(
        with(&|o| { timed(o); o.max_lateness_ms = b(f64::INFINITY) }).unwrap_err(),
        "--max-lateness-ms must be finite and non-negative"
    );
    assert_eq!(
        with(&|o| { timed(o); o.skip_vector_index = true }).unwrap_err(),
        "--target-qps currently supports search-only vector benchmarks"
    );
    assert_eq!(
        with(&|o| o.search_duration = b(-1.0)).unwrap_err(),
        "--search-duration must be finite and non-negative"
    );
    assert_eq!(
        with(&|o| o.warmup_seconds = b(1.0)).unwrap_err(),
        "--warmup-seconds requires --target-qps or --search-duration"
    );
    assert!(with(&|o| o.target_qps = b(-0.0)).is_ok());
    assert!(!watches(b(0.0)) && !watches(b(-1.0)) && !watches(b(f64::NAN)));
    assert!(!watches(b(f64::INFINITY)) && watches(b(30.0)));
}

fn engine(name: &str, kind: Option<&str>, wanted: bool) -> EngineEntry {
    EngineEntry {
        name: name.to_string(),
        engine: kind.map(|k| k.to_string()),
        config_name: name.to_string(),
        wanted,
    }
}

#[test]
fn engines_and_datasets_are_selected() {
    let entries = vec![
        engine("a", Some("redis"), true),
        engine("b", Some("other"), true),
        engine("c", None, true),
        engine("d", Some("chroma"), false),
        engine("e", Some("qdrant"), true),
    ];
    assert_eq!(select_engines(&entries, &["*".to_string()]).unwrap(), vec![0, 4]);
    let err = select_engines(&entries[1..4], &["x".to_string(), "y".to_string()]).unwrap_err();
    assert!(err.starts_with("No engines match pattern: 'x, y'. Supported: [\"redis\", "), "{err}");
    assert!(err.ends_with("\"chroma\"]."), "{err}");
    assert_eq!(select_datasets(&[false, true], &[]).unwrap(), vec![1]);
    assert_eq!(
        select_datasets(&[false], &["z".to_string()]).unwrap_err(),
        "No datasets match pattern: 'z'"
    );
    let mut timed = options();
    assert!(check_durations_supported(&timed, &entries).is_ok());
    timed.search_duration = 5.0f64.to_bits();
    assert_eq!(
        check_durations_supported(&timed, &entries[..2]).unwrap_err(),
        "duration-bounded search currently supports Redis and Vertex only; unsupported: b"
    );
    let twice = vec![
        engine("a", Some("redis"), true),
        engine("b", Some("redis"), true),
        engine("c", None, true),
        engine("d", Some("unknown"), true),
    ];
    assert_eq!(dedup_by_type(&twice), vec![0, 2]);
}

#[test]
fn configurations_that_share_an_index_are_refused() {
    let claim = |engine: &str, config: &str, index: &str, exact: bool| IndexClaim {
        engine: Some(engine.to_string()),
        config_name: config.to_string(),
        index: index.to_string(),
        exact,
    };
    assert!(check_collisions(&[
        claim("redis", "a", "idx:a", false),
        claim("redis", "b", "idx:b", false),
        claim("valkey", "a", "idx:a", false),
        claim("qdrant", "x", "same", false),
        claim("qdrant", "y", "same", false),
    ])
    .is_ok());
    assert_eq!(
        check_collisions(&[claim("redis", "a", "i", false), claim("redis", "b", "i", true)])
            .unwrap_err(),
        "Configs 'a' and 'b' derive the same index namespace 'i' (the redis index); rename them — a \
         sweep would silently overwrite one with the other (issue #151-4). (REDIS_INDEX_NAME_EXACT \
         is set — exact mode requires a single config per engine.)"
    );
    assert!(check_collisions(&[
        claim("mongodb", "a", "c", false),
        claim("mongodb", "b", "c", false)
    ])
    .unwrap_err()
    .contains("(the mongodb collection)"));
}

#[test]
fn engines_without_a_vector_index_are_renamed_or_skipped() {
    assert!(matches!(
        without_vector_index(Some(&"redis".to_string())),
        NoVectorRun::Renamed(n) if n == "redis-no-vector"
    ));
    assert!(matches!(
        without_vector_index(None),
        NoVectorRun::NotSupported(m) if m.contains("'unknown'")
    ));
}

#[test]
fn data_is_kept_as_asked_and_never_deleted_where_it_was_not_uploaded() {
    let mut o = options();
    assert!(!keep_data(&o, true));
    assert_eq!(cleanup_line(&o, true), "Experiment stage: Cleanup (deleting index and data)");
    o.keep_data = true;
    assert!(keep_data(&o, false));
    assert_eq!(keep_data_reason(&o), "cleanup skipped");
    assert!(keep_data_note(&o, 2).is_some() && keep_data_note(&o, 1).is_none());
    o.reset_between_configs = true;
    assert!(!keep_data(&o, false) && keep_data(&o, true));
    assert!(cleanup_line(&o, false).contains("freeing this config's data"));
    o.skip_upload = true;
    assert!(keep_data(&o, false));
    assert_eq!(
        cleanup_line(&o, false),
        "Experiment stage: Keep data (--skip-upload did not create this corpus, so it does not \
         delete it)"
    );
    assert_eq!(name_failure("c", "d", "why"), "[config=c dataset=d] why");
}

#[test]
fn searches_are_planned_phase_by_phase() {
    let list = vec![
        params(Some(1), Some(64)),
        params(Some(8), Some(64)),
        params(Some(1), Some(128)),
        params(None, None),
    ];
    let ids = |o: &RunOptions, phases: &[Option<UpdateSearchRatio>]| {
        plan_points(phases, &list, o).iter().map(|p| p.search_id).collect::<Vec<_>>()
    };
    let mut o = options();
    assert_eq!(ids(&o, &[None]), vec![0, 1, 2, 3]);
    o.parallels = vec![1];
    assert_eq!(ids(&o, &[None]), vec![0, 2, 3]);
    o.ef_runtime = vec![128];
    assert_eq!(ids(&o, &[None]), vec![2, 3]);
    let mixed = Some(UpdateSearchRatio { updates: 1, searches: 10 });
    assert_eq!(
        plan_points(&[None, mixed], &list, &o),
        vec![
            Point { phase: None, search_id: 2 },
            Point { phase: None, search_id: 3 },
            Point { phase: mixed, search_id: 2 },
            Point { phase: mixed, search_id: 3 },
        ]
    );
    let mut bare = options();
    bare.skip_vector_index = true;
    bare.ef_runtime = vec![128];
    assert_eq!(ids(&bare, &[None, mixed]), vec![0, 1]);
    assert_eq!(effective_ef(&list[0], false), "64");
    assert_eq!(effective_ef(&list[3], false), "default");
    assert_eq!(effective_ef(&list[0], true), "n/a");
}

#[test]
fn repetitions_and_warm_ups_follow_the_mode() {
    let mut o = options();
    o.repetitions = 3;
    assert_eq!(repetitions(&o), 3);
    assert!(ignored_repetitions(&o).is_none());
    assert_eq!(warm_up(&o), WarmUp::Nothing);
    o.search_duration = 5.0f64.to_bits();
    assert_eq!(repetitions(&o), 1);
    assert!(ignored_repetitions(&o).unwrap().contains("--repetitions 3 ignored"));
    o.warmup_seconds = 1.0f64.to_bits();
    assert_eq!(warm_up(&o), WarmUp::ClosedLoop);
    o.target_qps = 10.0f64.to_bits();
    assert_eq!(warm_up(&o), WarmUp::OpenLoop);
    let t = Timing {
        search_duration: float(5.0),
        target_qps: float(10.0),
        max_lateness_ms: float(0.0),
        warmup_seconds: float(1.0),
    };
    let mut p = params(None, None);
    set_timing(&mut p, &o, &t);
    assert_eq!(p.duration_seconds, Some(float(5.0)));
    assert_eq!(p.target_qps, Some(float(10.0)));
    let mut w = p.clone();
    set_warm_up(&mut w, WarmUp::OpenLoop, &t);
    assert_eq!((w.duration_seconds, w.target_qps), (Some(float(1.0)), Some(float(10.0))));
    set_warm_up(&mut p, WarmUp::ClosedLoop, &t);
    assert_eq!((p.duration_seconds, p.target_qps), (Some(float(1.0)), None));
    o.search_duration = 0;
    o.repetitions = 0;
    assert_eq!(repetitions(&o), 1);
}

#[test]
fn the_better_repetition_is_kept() {
    let s = |rps: f64, dropped: u64, p95: Option<f64>| Scores {
        rps: rps.to_bits(),
        dropped_queries: dropped,
        end_to_end_p95: p95.map(|x| x.to_bits()),
    };
    assert!(is_better(s(2.0, 9, None), s(1.0, 0, None), false));
    assert!(!is_better(s(1.0, 0, None), s(1.0, 5, None), false));
    assert!(is_better(s(1.0, 0, Some(9.0)), s(2.0, 1, Some(1.0)), true));
    assert!(is_better(s(1.0, 1, Some(0.5)), s(2.0, 1, Some(1.0)), true));
    assert!(is_better(s(1.0, 1, Some(0.5)), s(2.0, 1, None), true));
    assert!(!is_better(s(1.0, 1, None), s(2.0, 1, None), true));
}

#[test]
fn home_directories_are_not_published() {
    let home = "/home/u".to_string();
    assert_eq!(tildeify("/home/u/x", Some(&home)), "~/x");
    assert_eq!(tildeify("/srv/x", Some(&home)), "/srv/x");
    assert_eq!(tildeify("/home", Some(&home)), "/home");
    assert_eq!(tildeify("/home/u", Some(&home)), "~");
    assert_eq!(tildeify("/home/u/", Some(&home)), "~/");
    assert_eq!(tildeify("/home/ursula/b", Some(&home)), "/home/ursula/b");
    assert_eq!(tildeify("/home/alice/b", Some(&"/home/al".to_string())), "/home/alice/b");
    let slashed = "/home/u/".to_string();
    assert_eq!(tildeify("/home/u/x", Some(&slashed)), "~/x");
    assert_eq!(tildeify("/home/u", Some(&slashed)), "~");
    assert_eq!(tildeify("/home/ux", Some(&slashed)), "/home/ux");
    let root = "/".to_string();
    assert_eq!(tildeify("/srv/x", Some(&root)), "~/srv/x");
    assert_eq!(tildeify("srv/x", Some(&root)), "srv/x");
    assert_eq!(tildeify("", Some(&root)), "");
    assert_eq!(tildeify("/x", Some(&String::new())), "/x");
    assert_eq!(tildeify("/x", None), "/x");
}

// ── the course of an experiment ─────────────────────────────────────────

fn course(points: usize) -> Course {
    Course {
        skip_upload: false,
        skip_search: false,
        skip_vector_index: false,
        has_schema_fields: false,
        exit_on_error: true,
        fail_on_dropped_queries: false,
        keep_data: false,
        open_loop: false,
        warm_up: WarmUp::Nothing,
        repetitions: 2,
        points,
    }
}

#[test]
fn the_options_of_a_run_set_its_course() {
    let mut o = options();
    assert_eq!(course_of(&o, true, false, 3), Course { repetitions: 1, ..course(3) });
    o.keep_data = true;
    o.reset_between_configs = true;
    assert!(!course_of(&o, false, true, 0).keep_data);
    assert!(course_of(&o, true, true, 0).keep_data && course_of(&o, true, true, 0).has_schema_fields);
    o.keep_data = false;
    o.skip_upload = true;
    assert!(course_of(&o, false, false, 0).keep_data);
    o.repetitions = 0;
    o.target_qps = 5.0f64.to_bits();
    o.warmup_seconds = 1.0f64.to_bits();
    let c = course_of(&o, false, false, 0);
    assert_eq!((c.repetitions, c.open_loop, c.warm_up), (1, true, WarmUp::OpenLoop));
    o.repetitions = 4;
    assert_eq!(course_of(&o, false, false, 0).repetitions, 4);
    o.search_duration = 2.0f64.to_bits();
    assert_eq!(course_of(&o, false, false, 0).repetitions, 1);
}

#[test]
fn a_corpus_that_was_not_uploaded_is_left_alone() {
    let mut o = options();
    o.skip_upload = true;
    for keep_data in [true, false] {
        let c = Course { keep_data, ..course_of(&o, true, false, 0) };
        let mut e = Experiment::begin(c, vec![], vec![]);
        let steps = drive(&mut e, |_, _| searched(1.0, 0));
        assert!(
            !steps.iter().any(|s| matches!(s, Step::Configure | Step::Upload | Step::Delete)),
            "{steps:?}"
        );
        assert_eq!(e.step, Step::Finish);
    }
}

#[test]
fn calibrated_searches_name_a_parameter_and_a_precision() {
    let mut p = params(None, None);
    assert!(!is_calibrated(&p));
    p.calibration_param = Some("ef".to_string());
    assert!(!is_calibrated(&p));
    p.calibration_precision = Some(0.95f64.to_bits());
    assert!(is_calibrated(&p));
}

#[test]
fn ceilings_are_taken_at_the_number_of_results() {
    assert_eq!(calibration_top(Some(100), Some(3)), Some(100));
    assert_eq!(calibration_top(Some(0), Some(3)), Some(0));
    assert_eq!(calibration_top(Some(-1), Some(3)), Some(3));
    assert_eq!(calibration_top(None, Some(3)), Some(3));
    assert_eq!(calibration_top(None, None), None);
}

fn searched(rps: f64, failed: u64) -> Event {
    Event::Searched {
        scores: Scores { rps: rps.to_bits(), dropped_queries: 0, end_to_end_p95: None },
        failed_queries: failed,
        requested_queries: 10,
    }
}

fn drive(e: &mut Experiment, search: impl Fn(usize, u64) -> Event) -> Vec<Step> {
    let mut steps = vec![e.step];
    while !matches!(e.step, Step::Finish | Step::Fail) {
        let event = match e.step {
            Step::Search { point, repetition } => search(point, repetition),
            _ => Event::Succeeded,
        };
        e.advance(&event, None);
        steps.push(e.step);
    }
    steps
}

fn begin(c: Course) -> Experiment {
    Experiment::begin(c, (0..c.points).collect(), vec![false; c.points])
}

#[test]
fn an_experiment_runs_from_upload_to_cleanup() {
    let mut e = begin(course(1));
    let steps = drive(&mut e, |_, rep| searched(rep as f64, 0));
    assert_eq!(
        steps,
        vec![
            Step::Configure,
            Step::Upload,
            Step::SaveUpload,
            Step::ProfileGroundTruth,
            Step::Search { point: 0, repetition: 0 },
            Step::Search { point: 0, repetition: 1 },
            Step::TakeSnapshot,
            Step::Save(0),
            Step::Summarise,
            Step::Delete,
            Step::Finish,
        ]
    );
    assert_eq!(e.completed, vec![(0, 1)]);
}

#[test]
fn a_reused_corpus_is_neither_written_nor_deleted() {
    let mut c = course(1);
    c.skip_upload = true;
    c.keep_data = true;
    let steps = drive(&mut begin(c), |_, _| searched(1.0, 0));
    assert_eq!(steps[0], Step::CheckReuse);
    assert!(!steps.iter().any(|s| matches!(
        s,
        Step::Configure | Step::Upload | Step::SaveUpload | Step::Delete
    )));
}

#[test]
fn a_failed_search_ends_the_run_after_the_others_are_saved() {
    let mut e = begin(course(2));
    let steps = drive(&mut e, |point, _| {
        if point == 0 {
            searched(1.0, 0)
        } else {
            Event::Failed("index not found".to_string())
        }
    });
    assert!(steps.contains(&Step::Save(0)));
    assert_eq!(steps.last(), Some(&Step::Fail));
    assert_eq!(
        e.error.as_deref(),
        Some("search failed (all 2 repetition(s)): index not found")
    );
    let mut tolerant = course(2);
    tolerant.exit_on_error = false;
    let mut e = begin(tolerant);
    let steps = drive(&mut e, |point, _| {
        if point == 0 {
            Event::Failed("x".to_string())
        } else {
            searched(1.0, 0)
        }
    });
    assert_eq!(steps.last(), Some(&Step::Finish));
    assert_eq!(e.completed, vec![(1, 0)]);
}

#[test]
fn dropped_queries_fail_the_run_after_its_results_are_written() {
    let mut c = course(1);
    c.fail_on_dropped_queries = true;
    let mut e = begin(c);
    let steps = drive(&mut e, |_, _| searched(1.0, 3));
    assert!(steps.contains(&Step::Save(0)));
    assert_eq!(steps.last(), Some(&Step::Fail));
    let err = e.error.unwrap();
    assert!(
        err.starts_with("1 search config(s) lost queries and --fail-on-dropped-queries is set: \
                         search #0: 3/10 queries dropped. "),
        "{err}"
    );
}

#[test]
fn searches_without_anything_to_search_for_are_left_out() {
    let mut c = course(1);
    c.skip_vector_index = true;
    let steps = drive(&mut begin(c), |_, _| searched(1.0, 0));
    assert_eq!(
        steps,
        vec![Step::Configure, Step::Upload, Step::SaveUpload, Step::Delete, Step::Finish]
    );
    c.skip_vector_index = false;
    c.skip_search = true;
    let steps = drive(&mut begin(c), |_, _| searched(1.0, 0));
    assert!(!steps.iter().any(|s| matches!(s, Step::Search { .. } | Step::ProfileGroundTruth)));
}

#[test]
fn calibrations_and_warm_ups_come_before_the_repetitions() {
    let mut c = course(1);
    c.warm_up = WarmUp::OpenLoop;
    c.repetitions = 1;
    let mut e = Experiment::begin(c, vec![0], vec![true]);
    let steps = drive(&mut e, |_, _| searched(1.0, 0));
    assert_eq!(
        steps[4..7],
        [Step::Calibrate(0), Step::WarmUp(0), Step::Search { point: 0, repetition: 0 }]
    );
    let mut e = Experiment::begin(c, vec![0], vec![false]);
    for _ in 0..4 {
        e.advance(&Event::Succeeded, None);
    }
    assert_eq!(e.step, Step::WarmUp(0));
    e.advance(&Event::Failed("no".to_string()), None);
    assert_eq!(e.step, Step::Fail);
    assert_eq!(e.error.as_deref(), Some("open-loop warm-up failed: no"));
}

#[test]
fn ratios_that_cannot_be_read_end_the_run_once_the_corpus_is_there() {
    let mut e = begin(course(0));
    let bad = "Search count must be > 0".to_string();
    for _ in 0..3 {
        e.advance(&Event::Succeeded, Some(&bad));
    }
    assert_eq!(e.step, Step::Fail);
    assert_eq!(e.error, Some(bad));
}

#[test]
fn experiments_that_cannot_be_made_are_skipped() {
    let mut p = Pairing {
        engine: "e".to_string(),
        dataset: "d".to_string(),
        dataset_type: Some("sparse".to_string()),
        needs_sparse: true,
        supports_sparse: false,
        results_exist: true,
    };
    assert_eq!(
        reason_to_skip(&p, &options()).unwrap(),
        "Skipping e - d: the dataset is sparse and this engine has no sparse path"
    );
    p.supports_sparse = true;
    assert!(reason_to_skip(&p, &options()).is_none());
    let mut o = options();
    o.skip_if_exists = true;
    o.skip_upload = true;
    assert_eq!(
        reason_to_skip(&p, &o).unwrap(),
        "Skipping (results exist): e-d-upload-*.json"
    );
}
