use vector_db_benchmark::experiment::results::SearchResults;
use vector_db_benchmark::json::{Json, JsonNumber};
use vector_db_benchmark::json_parse::parse_json;
use vector_db_benchmark::report::{curves_lines, mixed_lines, results_lines, ShownResult};
use vector_db_benchmark::sorted_texts::{put_text, sorted_distinct};
use vector_db_benchmark::summary::{
    analyze_precision_performance, build_summary_json, concurrency_curves, fastest_with_label,
    filter_only, order_by_key, ratio_labels, saturation_warnings, scaling_pairs, uncalibrated, Gain,
    RoundedNumbers, SearchEntry,
};
use vector_db_benchmark::tables::{
    create_ascii_scatter_plot, pad_left, pad_right, repeat_char, table, table_row,
};

fn j(text: &str) -> Json {
    parse_json(text).unwrap()
}

fn float(x: f64) -> Json {
    match serde_json::Number::from_f64(x) {
        Some(n) => Json::Number(JsonNumber::Float(n.to_string())),
        None => Json::Null,
    }
}

fn nothing() -> SearchResults {
    SearchResults {
        top: 0,
        requested_queries: 0,
        num_queries: 0,
        failed_queries: 0,
        parallel: 0,
        available_cores: 0,
        offered_queries: 0,
        dropped_queries: 0,
        late_queries: 0,
        oversubscribed: false,
        client_saturated: false,
        saturation_reason: String::new(),
        total_time: float(0.0),
        mean_time: float(0.0),
        client_cpu_cores_used: Json::Null,
        system_cpu_pct: Json::Null,
        target_qps: Json::Null,
        schedule_delay_p50_time: Json::Null,
        schedule_delay_p95_time: Json::Null,
        schedule_delay_p99_time: Json::Null,
        end_to_end_p50_time: Json::Null,
        end_to_end_p95_time: Json::Null,
        end_to_end_p99_time: Json::Null,
        mean_precision_at_returned: float(0.0),
        mean_recall: float(0.0),
        recall_p10: float(0.0),
        mean_mrr: float(0.0),
        mean_ndcg: float(0.0),
        std_time: float(0.0),
        min_time: float(0.0),
        max_time: float(0.0),
        rps: float(0.0),
        p50_time: float(0.0),
        p95_time: float(0.0),
        p99_time: float(0.0),
        latency_hdr: Json::Null,
        precision_at_returned_dist: Json::Null,
        recall_dist: Json::Null,
        mrr_dist: Json::Null,
        ndcg_dist: Json::Null,
        precisions_at_returned: Json::Array(vec![]),
        recalls: Json::Array(vec![]),
        mrrs: Json::Array(vec![]),
        ndcgs: Json::Array(vec![]),
        latencies: Json::Array(vec![]),
        mean_precision_bits: 0,
        rps_bits: 0,
        p95_bits: 0,
        end_to_end_p95_bits: None,
        update_search_ratio: None,
        update_count: None,
        update_rps: None,
        update_attribution: None,
        update_failures: None,
        update_attribution_detail: None,
        update_unattributed: None,
        update_mean_time: None,
        update_p50_time: None,
        update_p95_time: None,
        update_p99_time: None,
        update_latency_hdr: Json::Null,
        update_latencies: None,
    }
}

fn entry(ef: &str, parallel: i64, rps: f64, p95: f64, sat_reason: &str) -> SearchEntry {
    let mut results = nothing();
    results.rps_bits = rps.to_bits();
    results.p95_bits = p95.to_bits();
    results.client_saturated = !sat_reason.is_empty();
    results.saturation_reason = sat_reason.to_string();
    SearchEntry { search_id: 0, ef: ef.to_string(), parallel, results, calibration: None }
}

/// The warnings, with the gains worked out in floating point.
fn warnings(entries: &[SearchEntry]) -> Vec<String> {
    let gains: Vec<Gain> = scaling_pairs(entries)
        .into_iter()
        .map(|(a, b)| {
            let q = |i: usize| f64::from_bits(entries[i].results.rps_bits);
            let p = |i: usize| f64::from_bits(entries[i].results.p95_bits);
            let gain = (q(b) - q(a)) / q(a);
            Gain {
                is_small: gain < 0.10,
                gain_shown: format!("{:.0}", gain * 100.0),
                rise_shown: format!("{:.0}", (p(b) / p(a) - 1.0) * 100.0),
            }
        })
        .collect();
    saturation_warnings(entries, &gains)
}

#[test]
fn saturation_warns_when_throughput_stops_scaling() {
    let entries = vec![entry("64", 8, 1000.0, 0.02, ""), entry("64", 16, 1050.0, 0.03, "")];
    let w = warnings(&entries);
    assert_eq!(w.len(), 1, "got {w:?}");
    assert!(w[0].starts_with("throughput saturated: ef=64 parallel 8→16"), "got {}", w[0]);
    assert!(w[0].contains("gained only 5% QPS"), "got {}", w[0]);
    assert!(w[0].contains("p95 rose 50%"), "got {}", w[0]);
    assert!(w[0].ends_with("higher concurrency is not paying off"), "got {}", w[0]);
}

#[test]
fn saturation_silent_when_throughput_scales_well() {
    let entries = vec![entry("64", 8, 1000.0, 0.02, ""), entry("64", 16, 2000.0, 0.03, "")];
    assert!(warnings(&entries).is_empty());
}

#[test]
fn saturation_no_warn_when_p95_falls() {
    let entries = vec![entry("64", 8, 1000.0, 0.03, ""), entry("64", 16, 1050.0, 0.02, "")];
    assert!(warnings(&entries).is_empty());
}

#[test]
fn saturation_warns_on_client_saturated_flag() {
    let entries = vec![entry("128", 32, 5000.0, 0.05, "client CPU >90%")];
    let w = warnings(&entries);
    assert_eq!(w.len(), 1, "got {w:?}");
    assert_eq!(
        w[0],
        "client-saturated: ef=128 parallel=32 (client CPU >90%) — QPS/latency reflect the client, not the DB"
    );
}

#[test]
fn saturation_client_warnings_ordered_by_parallel() {
    let entries = vec![
        entry("64", 16, 4000.0, 0.04, "oversubscribed"),
        entry("64", 8, 3000.0, 0.03, "cpu"),
    ];
    let w = warnings(&entries);
    assert_eq!(w.len(), 2, "got {w:?}");
    assert!(w[0].contains("parallel=8"), "first: {}", w[0]);
    assert!(w[1].contains("parallel=16"), "second: {}", w[1]);
}

#[test]
fn warnings_do_not_depend_on_the_order_of_the_searches() {
    let made = [
        ("64", 1, 1000.0, 0.010, ""),
        ("64", 2, 1050.0, 0.020, "cpu"),
        ("64", 4, 1154.9, 0.030, ""),
        ("64", 8, 1270.4, 0.040, "oversubscribed"),
        ("64", 16, 1280.0, 0.035, ""),
        ("128", 32, 900.0, 0.1, ""),
        ("128", 64, 901.0, 0.2, ""),
    ];
    let entries = |order: &[usize]| -> Vec<SearchEntry> {
        order.iter().map(|i| entry(made[*i].0, made[*i].1, made[*i].2, made[*i].3, made[*i].4)).collect()
    };
    let first = warnings(&entries(&[0, 1, 2, 3, 4, 5, 6]));
    let steps: Vec<&str> = first
        .iter()
        .filter_map(|w| w.strip_prefix("throughput saturated: ef="))
        .map(|w| w.split(" gained").next().unwrap())
        .collect();
    // A gain of a tenth or more, and a tail that does not rise, are passed over.
    assert_eq!(steps, ["128 parallel 32→64", "64 parallel 1→2", "64 parallel 2→4"]);
    assert_eq!(first.len(), 5);
    for order in [[6, 5, 4, 3, 2, 1, 0], [3, 0, 6, 2, 5, 1, 4], [1, 0, 3, 2, 5, 4, 6]] {
        assert_eq!(warnings(&entries(&order)), first);
    }
}

/// A precision below 0.97, as it is grouped.
fn key(precision: f64) -> String {
    format!("{:.2}", (precision * 100.0).round() / 100.0)
}

fn prec_entry(precision: f64, rps: f64, saturated: bool) -> SearchEntry {
    let mut e = entry("64", 1, rps, 0.0, "");
    e.results.mean_precision_bits = precision.to_bits();
    e.results.client_saturated = saturated;
    e
}

fn precision(e: &SearchEntry) -> f64 {
    f64::from_bits(e.results.mean_precision_bits)
}

fn qps(e: &SearchEntry) -> f64 {
    f64::from_bits(e.results.rps_bits)
}

/// The best entries, the most precise first.
fn best(entries: &[SearchEntry]) -> Vec<&SearchEntry> {
    let keys: Vec<String> = entries.iter().map(|e| key(precision(e))).collect();
    analyze_precision_performance(entries, &keys).into_iter().map(|i| &entries[i]).collect()
}

#[test]
fn test_analyze_precision_performance_picks_best_qps() {
    let entries = vec![prec_entry(0.90, 5000.0, false), prec_entry(0.91, 4000.0, false)];
    let buckets = best(&entries);
    assert_eq!(buckets.len(), 2);
    assert!(precision(buckets[0]) > precision(buckets[1]));
}

#[test]
fn analyze_prefers_non_saturated_even_at_lower_qps() {
    for order in [false, true] {
        let entries = if order {
            vec![prec_entry(0.90, 6000.0, true), prec_entry(0.90, 5000.0, false)]
        } else {
            vec![prec_entry(0.90, 5000.0, false), prec_entry(0.90, 6000.0, true)]
        };
        let buckets = best(&entries);
        assert_eq!(buckets.len(), 1);
        assert!(!buckets[0].results.client_saturated, "order={order}");
        assert!((qps(buckets[0]) - 5000.0).abs() < 1e-9, "order={order}, qps={}", qps(buckets[0]));
    }
}

#[test]
fn analyze_falls_back_to_saturated_when_sole_candidate() {
    let entries = vec![prec_entry(0.90, 4000.0, true), prec_entry(0.90, 6000.0, true)];
    let buckets = best(&entries);
    assert_eq!(buckets.len(), 1);
    assert!(buckets[0].results.client_saturated);
    assert!((qps(buckets[0]) - 6000.0).abs() < 1e-9);
}

#[test]
fn analyze_same_saturation_class_keeps_higher_qps() {
    let entries = vec![prec_entry(0.90, 3000.0, false), prec_entry(0.90, 7000.0, false)];
    let buckets = best(&entries);
    assert_eq!(buckets.len(), 1);
    assert!((qps(buckets[0]) - 7000.0).abs() < 1e-9);
}

#[test]
fn a_sole_precision_need_not_be_a_number() {
    let entries = vec![prec_entry(f64::NAN, 1.0, false)];
    assert_eq!(analyze_precision_performance(&entries, &["NaN".to_string()]), vec![0]);
}

fn max_qps(entries: &[SearchEntry], peak: Option<usize>) -> f64 {
    qps(&entries[peak.unwrap()])
}

#[test]
fn concurrency_curve_finds_peak_and_knee() {
    let entries = vec![
        entry("64", 1, 100.0, 0.01, ""),
        entry("64", 2, 190.0, 0.02, ""),
        entry("64", 4, 300.0, 0.03, ""),
        entry("64", 8, 290.0, 0.06, ""),
    ];
    let curves = concurrency_curves(&entries);
    assert_eq!(curves.len(), 1);
    let c = &curves[0];
    assert_eq!(c.points.len(), 4);
    assert_eq!(
        c.points.iter().map(|p| entries[*p].parallel).collect::<Vec<_>>(),
        vec![1, 2, 4, 8]
    );
    assert!((max_qps(&entries, c.peak) - 300.0).abs() < 1e-9);
    assert_eq!(c.max_qps_parallel, 4);
    assert_eq!(c.knee_parallel, Some(4));
}

#[test]
fn concurrency_curve_still_climbing_has_no_knee() {
    let entries = vec![
        entry("64", 1, 100.0, 0.01, ""),
        entry("64", 2, 200.0, 0.01, ""),
        entry("64", 4, 300.0, 0.01, ""),
        entry("64", 8, 400.0, 0.01, ""),
    ];
    let c = &concurrency_curves(&entries)[0];
    assert!((max_qps(&entries, c.peak) - 400.0).abs() < 1e-9);
    assert_eq!(c.max_qps_parallel, 8);
    assert_eq!(c.knee_parallel, None);
}

#[test]
fn concurrency_curve_requires_two_levels() {
    let entries = vec![entry("64", 4, 300.0, 0.03, "")];
    assert!(concurrency_curves(&entries).is_empty());
}

#[test]
fn concurrency_curve_groups_by_ef() {
    let entries = vec![
        entry("64", 1, 100.0, 0.01, ""),
        entry("64", 2, 150.0, 0.02, ""),
        entry("128", 1, 80.0, 0.01, ""),
        entry("128", 2, 120.0, 0.02, ""),
    ];
    let curves = concurrency_curves(&entries);
    assert_eq!(curves.len(), 2);
    assert_eq!(curves.iter().map(|c| c.ef.as_str()).collect::<Vec<_>>(), vec!["128", "64"]);
}

#[test]
fn concurrency_curve_dedups_repeated_level_preferring_nonsaturated() {
    let entries = vec![
        entry("64", 1, 100.0, 0.01, ""),
        entry("64", 2, 400.0, 0.02, "client cpu"),
        entry("64", 2, 250.0, 0.02, ""),
    ];
    let c = &concurrency_curves(&entries)[0];
    assert_eq!(c.points.len(), 2);
    let p2 = c.points.iter().map(|p| &entries[*p]).find(|e| e.parallel == 2).unwrap();
    assert!(!p2.results.client_saturated, "clean point must win over saturated one");
    assert!((qps(p2) - 250.0).abs() < 1e-9);
}

#[test]
fn concurrency_curve_excludes_filter_only_runs() {
    let mut a = entry("64", 1, 100.0, 0.01, "");
    let mut b = entry("64", 2, 200.0, 0.01, "");
    a.results.mean_precision_bits = (-1.0f64).to_bits();
    b.results.mean_precision_bits = (-1.0f64).to_bits();
    let entries = [a, b];
    assert!(concurrency_curves(&entries).is_empty());
    assert!(filter_only(&entries));
    assert!(!filter_only(&[entry("64", 1, 100.0, 0.01, "")]));
}

#[test]
fn the_fastest_of_each_mix_is_found() {
    let mut a = entry("64", 1, 100.0, 0.01, "");
    let mut b = entry("64", 1, 300.0, 0.01, "");
    let c = entry("64", 1, 50.0, 0.01, "");
    a.results.update_search_ratio = Some("2:1".to_string());
    b.results.update_search_ratio = Some("2:1".to_string());
    let entries = [a, b, c];
    assert_eq!(ratio_labels(&entries), vec!["2:1".to_string(), "search".to_string()]);
    assert_eq!(fastest_with_label(&entries, "2:1"), Some(1));
    assert_eq!(fastest_with_label(&entries, "search"), Some(2));
    assert_eq!(fastest_with_label(&entries, "1:1"), None);
    // The mix without updates comes first.
    let keys: Vec<u64> = [2.0f64, -1.0].iter().map(|k| k.to_bits()).collect();
    assert_eq!(order_by_key(&keys), vec![1, 0]);
}

fn rounded(q: f64) -> RoundedNumbers {
    RoundedNumbers {
        qps: float(q),
        p50_ms: float(1.0),
        p95_ms: float(2.0),
        p99_ms: float(3.0),
        recall: float(0.5),
        mrr: float(0.25),
        ndcg: float(0.125),
    }
}

#[test]
fn a_summary_holds_the_best_of_each_precision() {
    let entries = vec![prec_entry(0.90, 5000.0, false), prec_entry(0.90, 6000.0, true)];
    let keys = vec!["0.90".to_string(), "0.90".to_string()];
    let upload = j(r#"{"total_time": 1.5}"#);
    let s = build_summary_json(
        "redis",
        "glove",
        &entries,
        &keys,
        &[rounded(5000.0), rounded(6000.0)],
        Some(&upload),
    );
    assert_eq!(s.get("engine"), Some(&Json::Text("redis".to_string())));
    assert_eq!(s.get("dataset"), Some(&Json::Text("glove".to_string())));
    assert_eq!(s.get("upload"), Some(&upload));
    assert_eq!(s.get("search_results").unwrap().as_array().unwrap().len(), 2);
    let best = s.get("precision_summary").unwrap();
    assert_eq!(best.as_object().unwrap().len(), 1);
    assert_eq!(best.get("0.90").unwrap().get("QPS"), Some(&float(5000.0)));
    // One level of concurrency is no curve.
    assert_eq!(s.get("concurrency_curve"), Some(&Json::Array(vec![])));
}

#[test]
fn searches_that_missed_their_target_are_pointed_out() {
    let met = entry("64", 1, 100.0, 0.01, "");
    let mut missed = entry("128", 1, 100.0, 0.01, "");
    missed.calibration = Some(j(r#"{"reached_target": false}"#));
    let mut hit = entry("256", 1, 100.0, 0.01, "");
    hit.calibration = Some(j(r#"{"reached_target": true}"#));
    assert_eq!(uncalibrated(&[met, missed, hit]), vec![1]);
}

#[test]
fn texts_are_kept_once_and_in_order() {
    let texts: Vec<String> = ["b", "a", "", "b", "ab"].iter().map(|s| s.to_string()).collect();
    assert_eq!(sorted_distinct(&texts), vec!["", "a", "ab", "b"]);
    let mut sorted = sorted_distinct(&texts);
    put_text(&mut sorted, "aa");
    put_text(&mut sorted, "aa");
    assert_eq!(sorted, vec!["", "a", "aa", "ab", "b"]);
}

#[test]
fn cells_are_padded_to_their_width() {
    assert_eq!(repeat_char('-', 4), "----");
    assert_eq!(pad_right("ab", 4), "ab  ");
    assert_eq!(pad_left("ab", 4), "  ab");
    assert_eq!(pad_left("abcde", 4), "abcde");
    assert_eq!(pad_right("é", 2), "é ");
}

fn texts(items: &[&str]) -> Vec<String> {
    items.iter().map(|s| s.to_string()).collect()
}

#[test]
fn a_table_is_ruled_above_and_below_its_header() {
    let widths = [5, 3];
    assert_eq!(table_row(&texts(&["ab", "c"]), &widths), "ab    c  ");
    assert_eq!(
        table(&texts(&["Name", "QPS"]), &[texts(&["x", "12"])], &widths, 9),
        vec!["---------", "Name  QPS", "---------", "x     12 "]
    );
}

#[test]
fn points_are_drawn_from_the_lower_left() {
    let rates: Vec<String> = (0..12).map(|i| format!("{}", 1100 - 100 * i)).collect();
    let lines = create_ascii_scatter_plot(
        "redis",
        "glove",
        &[(0, 0), (59, 11), (1000, 1000)],
        &rates,
        &texts(&["0.900", "0.930", "0.960", "0.990"]),
    );
    assert_eq!(lines.len(), 16);
    assert_eq!(
        lines[0],
        "\nQPS vs Precision Trade-off - redis - glove (up and to the right is better):\n"
    );
    assert_eq!(lines[1], format!("    1100 │{}●", " ".repeat(59)));
    assert_eq!(lines[12], format!("       0 │●{}", " ".repeat(59)));
    assert_eq!(lines[13], format!("         └{}", "─".repeat(60)));
    assert_eq!(
        lines[14],
        format!("          {:<15}{:<15}{:<15}{:<15}", "0.900", "0.930", "0.960", "0.990")
    );
    assert_eq!(lines[15], "        Precision (0.0 = 0%, 1.0 = 100%)");
}

fn shown(qps: &str) -> ShownResult {
    ShownResult {
        recall: "0.9000".to_string(),
        precision: "0.8000".to_string(),
        mrr: "0.7000".to_string(),
        ndcg: "0.6000".to_string(),
        qps: qps.to_string(),
        p50: "1.000".to_string(),
        p95: "2.000".to_string(),
        p99: "3.000".to_string(),
        update_qps: None,
        update_p50: Some("4.000".to_string()),
    }
}

#[test]
fn the_best_of_each_precision_is_shown() {
    assert!(results_lines(&[], &[], &[]).is_empty());
    let entries = vec![prec_entry(0.90, 5000.0, false), prec_entry(0.91, 4000.0, false)];
    let lines =
        results_lines(&entries, &texts(&["0.90", "0.91"]), &[shown("5000.0"), shown("4000.0")]);
    assert_eq!(lines.len(), 6);
    assert_eq!(lines[0], "-".repeat(82));
    assert_eq!(
        lines[1],
        "Recall     Precision  MRR      NDCG     QPS        P50 (ms)     P95 (ms)    "
    );
    assert_eq!(
        lines[3],
        "0.9000     0.8000     0.7000   0.6000   4000.0     1.000        2.000       "
    );
    assert_eq!(lines[5], "");
}

#[test]
fn searches_without_a_precision_are_all_shown() {
    let entries = vec![prec_entry(-1.0, 5.0, false), prec_entry(-1.0, 4.0, false)];
    let lines = results_lines(&entries, &texts(&["-1.00", "-1.00"]), &[shown("5.0"), shown("4.0")]);
    assert_eq!(lines[0], "-".repeat(40));
    assert_eq!(lines[1], "QPS        P50 (ms)     P95 (ms)    ");
    assert_eq!(lines[3], "5.0        1.000        2.000       ");
    assert_eq!(lines[4], "4.0        1.000        2.000       ");
}

#[test]
fn mixes_are_shown_by_ascending_share_of_updates() {
    let mut a = entry("64", 1, 100.0, 0.01, "");
    let mut b = entry("64", 1, 300.0, 0.01, "");
    a.results.update_search_ratio = Some("4:1".to_string());
    b.results.update_search_ratio = Some("1:1".to_string());
    let c = entry("64", 1, 50.0, 0.01, "");
    assert!(mixed_lines(&[c], &[(-1.0f64).to_bits()], &[shown("50.0")]).is_empty());
    let entries = [a, b, entry("64", 1, 50.0, 0.01, "")];
    // The labels are "1:1", "4:1" and "search".
    let keys: Vec<u64> = [1.0f64, 4.0, -1.0].iter().map(|k| k.to_bits()).collect();
    let lines = mixed_lines(&entries, &keys, &[shown("100.0"), shown("300.0"), shown("50.0")]);
    assert_eq!(lines.len(), 8);
    assert_eq!(lines[0], "");
    assert_eq!(lines[1], "-".repeat(116));
    assert!(lines[4].starts_with("search         0.9000   0.8000   0.7000   0.6000   50.0"));
    assert!(lines[5].starts_with("1:1 ") && lines[5].contains("300.0"));
    assert!(lines[6].starts_with("4:1 ") && lines[6].ends_with("-          4.000       "));
    assert_eq!(lines[7], "");
}

#[test]
fn curves_are_shown_with_their_knee() {
    let entries = vec![
        entry("64", 1, 100.0, 0.01, ""),
        entry("64", 2, 300.0, 0.02, "cpu"),
        entry("64", 4, 290.0, 0.03, ""),
    ];
    let lines = curves_lines(&entries, &[shown("100.0"), shown("300.0"), shown("290.0")]);
    assert_eq!(
        lines,
        vec![
            "\nTHROUGHPUT vs CONCURRENCY (saturation curve):",
            "  ef=64 — peak 300.0 QPS @ parallel 2 (throughput knee at parallel 2; higher concurrency did not help)",
            "    parallel         QPS     p50 ms     p95 ms     p99 ms    sat?",
            "           1       100.0      1.000      2.000      3.000       -",
            "           2       300.0      1.000      2.000      3.000     YES",
            "           4       290.0      1.000      2.000      3.000       -",
        ]
    );
    assert!(curves_lines(&entries[..1], &[shown("1.0")]).is_empty());
}
