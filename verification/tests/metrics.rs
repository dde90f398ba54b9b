use vector_db_benchmark::ground_truth::{query_reader, GroundTruthProfile, GroundTruthStats, QueryReader, ShownStats};
use vector_db_benchmark::metrics::{compute_metrics, QueryMetrics, Ratio};

fn value(r: Ratio) -> f64 {
    r.numerator as f64 / r.denominator as f64
}

fn ndcg(m: &QueryMetrics) -> f64 {
    if m.ideal_hits == 0 {
        return 1.0;
    }
    let dcg: f64 = m.hit_places.iter().map(|i| 1.0 / (*i as f64 + 2.0).log2()).sum();
    let ideal: f64 = (0..m.ideal_hits).map(|i| 1.0 / (i as f64 + 2.0).log2()).sum();
    dcg / ideal
}

#[test]
fn test_perfect_retrieval() {
    let m = compute_metrics(&[1, 2, 3, 4, 5], &[1, 2, 3, 4, 5], 5);
    assert!((value(m.recall) - 1.0).abs() < 1e-9);
    assert!((value(m.precision) - 1.0).abs() < 1e-9);
    assert!((value(m.mrr) - 1.0).abs() < 1e-9);
    assert!((ndcg(&m) - 1.0).abs() < 1e-9);
}

#[test]
fn test_no_overlap() {
    let m = compute_metrics(&[6, 7, 8, 9, 10], &[1, 2, 3, 4, 5], 5);
    assert!(value(m.recall).abs() < 1e-9);
    assert!(value(m.precision).abs() < 1e-9);
    assert!(value(m.mrr).abs() < 1e-9);
    assert!(ndcg(&m).abs() < 1e-9);
}

#[test]
fn test_first_relevant_at_position_3() {
    let m = compute_metrics(&[10, 20, 3, 1, 5], &[1, 2, 3, 4, 5], 5);
    assert!((value(m.recall) - 0.6).abs() < 1e-9);
    assert!((value(m.precision) - 0.6).abs() < 1e-9);
    assert!((value(m.mrr) - 1.0 / 3.0).abs() < 1e-9);
    assert_eq!(m.hit_places, vec![2, 3, 4]);
}

#[test]
fn test_fewer_results_than_k() {
    let m = compute_metrics(&[1, 2, 3], &[1, 2, 3, 4, 5], 5);
    assert!((value(m.recall) - 0.6).abs() < 1e-9);
    assert!((value(m.precision) - 1.0).abs() < 1e-9);
}

#[test]
fn test_k_zero() {
    let m = compute_metrics(&[], &[], 0);
    assert!((value(m.recall) - 1.0).abs() < 1e-9);
}

#[test]
fn test_fewer_ground_truth_than_k_reaches_full_recall() {
    let m = compute_metrics(&[1, 2, 3, 4, 5], &[1, 2], 5);
    assert!((value(m.recall) - 1.0).abs() < 1e-9);
    assert!((ndcg(&m) - 1.0).abs() < 1e-9);
}

#[test]
fn test_sentinel_padding_ignored() {
    let m = compute_metrics(&[1, 2, 9, 8, 7], &[1, 2, -1, -1, -1], 5);
    assert!((value(m.recall) - 1.0).abs() < 1e-9);
}

#[test]
fn test_duplicate_results_not_double_counted() {
    let m = compute_metrics(&[1, 1, 2, 2, 3], &[1, 2, 3, 4, 5], 5);
    assert!((value(m.recall) - 0.6).abs() < 1e-9);
}

#[test]
fn test_excess_results_truncated_to_k() {
    let m = compute_metrics(&[1, 2, 3, 4, 5, 6, 7, 8], &[1, 2, 3], 3);
    assert!((value(m.recall) - 1.0).abs() < 1e-9);
    assert!(value(m.recall) <= 1.0 + 1e-9);
}

#[test]
fn test_empty_ground_truth_not_penalized() {
    let m = compute_metrics(&[9, 8, 7], &[], 5);
    assert!((value(m.recall) - 1.0).abs() < 1e-9);
}

#[test]
fn precision_and_upstream_recall_diverge_on_short_result_set() {
    let m = compute_metrics(&[1, 2, 3, 4, 5], &[1, 2, 3, 4, 5, 6, 7, 8, 9, 10], 10);
    assert!((value(m.precision) - 1.0).abs() < 1e-9);
    assert!((value(m.recall) - 0.5).abs() < 1e-9);
    assert!((value(m.recall_at_top) - 0.5).abs() < 1e-9);
    assert!((value(m.precision) / value(m.recall_at_top) - 2.0).abs() < 1e-9);
}

#[test]
fn short_ground_truth_row_pins_all_three_denominators() {
    let mut results: Vec<i64> = (1000..1099).collect();
    results.push(7);
    let m = compute_metrics(&results, &[7], 100);
    assert!((value(m.precision) - 0.01).abs() < 1e-9);
    assert!((value(m.recall) - 1.0).abs() < 1e-9);
    assert!((value(m.recall_at_top) - 0.01).abs() < 1e-9);
    assert!((value(m.recall) / value(m.recall_at_top) - 100.0).abs() < 1e-6);
}

#[test]
fn full_width_ground_truth_makes_all_three_agree() {
    let m = compute_metrics(&[1, 2, 3, 99, 98], &[1, 2, 3, 4, 5], 5);
    assert!((value(m.precision) - 0.6).abs() < 1e-9);
    assert!((value(m.recall) - 0.6).abs() < 1e-9);
    assert!((value(m.recall_at_top) - 0.6).abs() < 1e-9);
}

#[test]
fn sentinel_padding_shrinks_only_our_recall_denominator() {
    let m = compute_metrics(&[1, 2, 9, 8, 7], &[1, 2, -1, -1, -1], 5);
    assert!((value(m.recall) - 1.0).abs() < 1e-9);
    assert!((value(m.recall_at_top) - 0.4).abs() < 1e-9);
}

fn rows(n: usize, width: usize) -> Vec<Vec<i64>> {
    (0..n).map(|q| ((q * 1000) as i64..(q * 1000 + width) as i64).collect()).collect()
}

fn mean_width(s: &GroundTruthStats) -> f64 {
    s.width_sum as f64 / s.queries as f64
}

fn ceiling(s: &GroundTruthStats) -> f64 {
    mean_width(s) / s.top as f64
}

fn note(s: &GroundTruthStats, target: f64) -> Option<String> {
    let above = !(target.is_nan() || target <= ceiling(s) + 1e-9);
    let shown = ShownStats {
        target: format!("{:.4}", target),
        mean_width: format!("{:.2}", mean_width(s)),
        ceiling: format!("{:.4}", ceiling(s)),
    };
    s.unreachable_target_note(above, &shown)
}

#[test]
fn full_width_ground_truth_has_ceiling_one() {
    let s = GroundTruthProfile::from_rows(rows(10, 100)).stats(100).unwrap();
    assert_eq!(s.queries, 10);
    assert_eq!(s.min_width, 100);
    assert_eq!(s.queries_below_top, 0);
    assert!((ceiling(&s) - 1.0).abs() < 1e-9);
    assert!(s.recall_matches_upstream());
    assert!(note(&s, 0.95).is_none());
}

#[test]
fn top_below_row_width_is_still_full_width() {
    let s = GroundTruthProfile::from_rows(rows(5, 100)).stats(10).unwrap();
    assert_eq!(s.min_width, 10);
    assert_eq!(s.queries_below_top, 0);
    assert!((ceiling(&s) - 1.0).abs() < 1e-9);
}

#[test]
fn short_rows_pull_the_ceiling_below_the_calibration_target() {
    let mut r = rows(9, 100);
    r.push(vec![42]);
    let s = GroundTruthProfile::from_rows(r).stats(100).unwrap();
    assert_eq!(s.queries, 10);
    assert_eq!(s.queries_below_top, 1);
    assert_eq!(s.min_width, 1);
    assert!((mean_width(&s) - 90.1).abs() < 1e-9);
    assert!((ceiling(&s) - 0.901).abs() < 1e-9);
    assert!(!s.recall_matches_upstream());
    let n = note(&s, 0.95).expect("0.95 > 0.901 must be flagged");
    assert!(n.contains("0.9010"), "{}", n);
    assert!(note(&s, 0.90).is_none());
}

#[test]
fn sentinel_padding_does_not_count_as_ground_truth() {
    let s = GroundTruthProfile::from_rows(vec![vec![1, 2, -1, -1, -1]]).stats(5).unwrap();
    assert_eq!(s.min_width, 2);
    assert_eq!(s.queries_below_top, 1);
    assert!((ceiling(&s) - 0.4).abs() < 1e-9);
}

#[test]
fn duplicate_truth_ids_counted_once() {
    let s = GroundTruthProfile::from_rows(vec![vec![7, 7, 7, 8]]).stats(4).unwrap();
    assert_eq!(s.min_width, 2);
    assert!((ceiling(&s) - 0.5).abs() < 1e-9);
}

#[test]
fn empty_or_zero_top_yields_no_stats() {
    assert!(GroundTruthProfile::from_rows(vec![]).stats(10).is_none());
    assert!(GroundTruthProfile::from_rows(rows(2, 10)).stats(0).is_none());
}

#[test]
fn nan_target_is_not_reported_unreachable_but_infinity_is() {
    let s = GroundTruthProfile::from_rows(rows(2, 10)).stats(10).unwrap();
    assert!(note(&s, f64::NAN).is_none());
    assert!(
        note(&s, f64::INFINITY).is_some(),
        "+inf is unreachable even against a ceiling of 1.0"
    );
}

#[test]
fn profiles_are_loaded_from_what_was_read() {
    let p = match GroundTruthProfile::load(false, false, false, |_| Ok(vec![vec![1, 2, 3], vec![]])) {
        Ok(p) => p,
        Err(e) => panic!("{e}"),
    };
    assert_eq!(p.first_row_len(), Some(3));
    assert_eq!(GroundTruthProfile::from_rows(vec![]).first_row_len(), None);
    assert!(matches!(
        GroundTruthProfile::from_read(Err("no file".to_string())),
        Err(e) if e == "no file"
    ));
}

#[test]
fn the_kind_of_a_dataset_decides_what_reads_its_queries() {
    for (hybrid, sparse, multivector, reader) in [
        (true, true, true, QueryReader::Hybrid),
        (true, false, false, QueryReader::Hybrid),
        (false, true, true, QueryReader::Sparse),
        (false, false, true, QueryReader::Multivector),
        (false, false, false, QueryReader::Dense),
    ] {
        assert_eq!(query_reader(hybrid, sparse, multivector), reader);
        let mut asked = vec![];
        let read = GroundTruthProfile::load(hybrid, sparse, multivector, |r| {
            asked.push(r);
            Err("no file".to_string())
        });
        assert!(matches!(read, Err(e) if e == "no file"));
        assert_eq!(asked, vec![reader]);
    }
}

#[test]
fn the_hits_of_all_queries_stay_below_the_ceiling() {
    let truth = vec![vec![1, 2, 3], vec![4]];
    let s = GroundTruthProfile::from_rows(truth.clone()).stats(3).unwrap();
    assert_eq!(s.width_sum, 4);
    let hits: usize = [vec![1, 2, 3], vec![4, 4, 5]]
        .iter()
        .zip(&truth)
        .map(|(r, t)| compute_metrics(r, t, 3).recall.numerator)
        .sum();
    assert!(hits as u128 <= s.width_sum);
}
