//! What the documents of runs say, read back by the names that they write it under.
use vstd::prelude::*;

use crate::experiment::results::{self, ResultExtras, SearchParams, SearchResults, UploadStats};
use crate::ground_truth::GroundTruthStats;
use crate::json::{self, JsonView};

verus! {

/// What is put where it is there is found under its key, and what stands under any other key stays.
broadcast proof fn lemma_put_some(
    members: Seq<(Seq<char>, JsonView)>,
    key: Seq<char>,
    value: Option<JsonView>,
    other: Seq<char>,
)
    ensures
        #[trigger] json::member_of(results::put_some(members, key, value), other) == if other == key
            && value is Some {
            value
        } else {
            json::member_of(members, other)
        },
{
    if let Some(v) = value {
        json::put_then_member(members, key, v, other);
    }
}

/// The measurements of a run as its document writes them.
pub open spec fn written(r: SearchResults, dump: bool) -> JsonView {
    JsonView::Object(
        results::with_updates(results::with_raw(results::measured_members(r), r, dump), r, dump),
    )
}

/// What is written beside the measurements of a run does not touch them.
proof fn lemma_beside(
    m: Seq<(Seq<char>, JsonView)>,
    r: SearchResults,
    dump: bool,
    key: Seq<char>,
)
    requires
        key != "precisions_at_returned"@,
        key != "recalls"@,
        key != "mrrs"@,
        key != "ndcgs"@,
        key != "latencies"@,
        key != "update_search_ratio"@,
        key != "update_count"@,
        key != "update_rps"@,
        key != "update_attribution"@,
        key != "update_failures"@,
        key != "update_attribution_detail"@,
        key != "update_unattributed"@,
        key != "update_mean_time"@,
        key != "update_p50_time"@,
        key != "update_p95_time"@,
        key != "update_p99_time"@,
        key != "update_latency_hdr"@,
        key != "update_latencies"@,
    ensures
        json::member_of(results::with_updates(results::with_raw(m, r, dump), r, dump), key)
            == json::member_of(m, key),
{
    broadcast use {json::put_then_member, lemma_put_some};

}

/// The names of measurements are different.
proof fn lemma_measured_names()
    ensures
        "total_time"@.len() == 10,
        "mean_time"@.len() == 9,
        "requested_queries"@.len() == 17,
        "succeeded_queries"@.len() == 17,
        "failed_queries"@.len() == 14,
        "parallel"@.len() == 8,
        "available_cores"@.len() == 15,
        "oversubscribed"@.len() == 14,
        "client_cpu_cores_used"@.len() == 21,
        "system_cpu_pct"@.len() == 14,
        "client_saturated"@.len() == 16,
        "saturation_reason"@.len() == 17,
        "target_qps"@.len() == 10,
        "offered_queries"@.len() == 15,
        "dropped_queries"@.len() == 15,
        "late_queries"@.len() == 12,
        "schedule_delay_p50_time"@.len() == 23,
        "schedule_delay_p95_time"@.len() == 23,
        "schedule_delay_p99_time"@.len() == 23,
        "end_to_end_p50_time"@.len() == 19,
        "end_to_end_p95_time"@.len() == 19,
        "end_to_end_p99_time"@.len() == 19,
        "mean_precision_at_returned"@.len() == 26,
        "mean_recall"@.len() == 11,
        "recall_p10"@.len() == 10,
        "mean_mrr"@.len() == 8,
        "mean_ndcg"@.len() == 9,
        "std_time"@.len() == 8,
        "min_time"@.len() == 8,
        "max_time"@.len() == 8,
        "rps"@.len() == 3,
        "p50_time"@.len() == 8,
        "p95_time"@.len() == 8,
        "p99_time"@.len() == 8,
        "latency_hdr"@.len() == 11,
        "precision_at_returned_dist"@.len() == 26,
        "recall_dist"@.len() == 11,
        "mrr_dist"@.len() == 8,
        "ndcg_dist"@.len() == 9,
        "precisions_at_returned"@.len() == 22,
        "recalls"@.len() == 7,
        "mrrs"@.len() == 4,
        "ndcgs"@.len() == 5,
        "latencies"@.len() == 9,
        "update_search_ratio"@.len() == 19,
        "update_count"@.len() == 12,
        "update_rps"@.len() == 10,
        "update_attribution"@.len() == 18,
        "update_failures"@.len() == 15,
        "update_attribution_detail"@.len() == 25,
        "update_unattributed"@.len() == 19,
        "update_mean_time"@.len() == 16,
        "update_p50_time"@.len() == 15,
        "update_p95_time"@.len() == 15,
        "update_p99_time"@.len() == 15,
        "update_latency_hdr"@.len() == 18,
        "update_latencies"@.len() == 16,
        "total_time"@ != "target_qps"@,
        "total_time"@ != "recall_p10"@,
        "total_time"@ != "update_rps"@,
        "mean_time"@ != "mean_ndcg"@,
        "mean_time"@ != "ndcg_dist"@,
        "mean_time"@ != "latencies"@,
        "requested_queries"@ != "succeeded_queries"@,
        "requested_queries"@ != "saturation_reason"@,
        "succeeded_queries"@ != "saturation_reason"@,
        "failed_queries"@ != "oversubscribed"@,
        "failed_queries"@ != "system_cpu_pct"@,
        "parallel"@ != "mean_mrr"@,
        "parallel"@ != "std_time"@,
        "parallel"@ != "min_time"@,
        "parallel"@ != "max_time"@,
        "parallel"@ != "p50_time"@,
        "parallel"@ != "p95_time"@,
        "parallel"@ != "p99_time"@,
        "parallel"@ != "mrr_dist"@,
        "available_cores"@ != "offered_queries"@,
        "available_cores"@ != "dropped_queries"@,
        "available_cores"@ != "update_failures"@,
        "available_cores"@ != "update_p50_time"@,
        "available_cores"@ != "update_p95_time"@,
        "available_cores"@ != "update_p99_time"@,
        "oversubscribed"@ != "system_cpu_pct"@,
        "client_saturated"@ != "update_mean_time"@,
        "client_saturated"@ != "update_latencies"@,
        "target_qps"@ != "recall_p10"@,
        "target_qps"@ != "update_rps"@,
        "offered_queries"@ != "dropped_queries"@,
        "offered_queries"@ != "update_failures"@,
        "offered_queries"@ != "update_p50_time"@,
        "offered_queries"@ != "update_p95_time"@,
        "offered_queries"@ != "update_p99_time"@,
        "dropped_queries"@ != "update_failures"@,
        "dropped_queries"@ != "update_p50_time"@,
        "dropped_queries"@ != "update_p95_time"@,
        "dropped_queries"@ != "update_p99_time"@,
        "late_queries"@ != "update_count"@,
        "schedule_delay_p50_time"@ != "schedule_delay_p95_time"@,
        "schedule_delay_p50_time"@ != "schedule_delay_p99_time"@,
        "schedule_delay_p95_time"@ != "schedule_delay_p99_time"@,
        "end_to_end_p50_time"@ != "end_to_end_p95_time"@,
        "end_to_end_p50_time"@ != "end_to_end_p99_time"@,
        "end_to_end_p50_time"@ != "update_search_ratio"@,
        "end_to_end_p50_time"@ != "update_unattributed"@,
        "end_to_end_p95_time"@ != "end_to_end_p99_time"@,
        "end_to_end_p95_time"@ != "update_search_ratio"@,
        "end_to_end_p95_time"@ != "update_unattributed"@,
        "end_to_end_p99_time"@ != "update_search_ratio"@,
        "end_to_end_p99_time"@ != "update_unattributed"@,
        "mean_precision_at_returned"@ != "precision_at_returned_dist"@,
        "mean_recall"@ != "latency_hdr"@,
        "mean_recall"@ != "recall_dist"@,
        "recall_p10"@ != "update_rps"@,
        "mean_mrr"@ != "std_time"@,
        "mean_mrr"@ != "min_time"@,
        "mean_mrr"@ != "max_time"@,
        "mean_mrr"@ != "p50_time"@,
        "mean_mrr"@ != "p95_time"@,
        "mean_mrr"@ != "p99_time"@,
        "mean_mrr"@ != "mrr_dist"@,
        "mean_ndcg"@ != "ndcg_dist"@,
        "mean_ndcg"@ != "latencies"@,
        "std_time"@ != "min_time"@,
        "std_time"@ != "max_time"@,
        "std_time"@ != "p50_time"@,
        "std_time"@ != "p95_time"@,
        "std_time"@ != "p99_time"@,
        "std_time"@ != "mrr_dist"@,
        "min_time"@ != "max_time"@,
        "min_time"@ != "p50_time"@,
        "min_time"@ != "p95_time"@,
        "min_time"@ != "p99_time"@,
        "min_time"@ != "mrr_dist"@,
        "max_time"@ != "p50_time"@,
        "max_time"@ != "p95_time"@,
        "max_time"@ != "p99_time"@,
        "max_time"@ != "mrr_dist"@,
        "p50_time"@ != "p95_time"@,
        "p50_time"@ != "p99_time"@,
        "p50_time"@ != "mrr_dist"@,
        "p95_time"@ != "p99_time"@,
        "p95_time"@ != "mrr_dist"@,
        "p99_time"@ != "mrr_dist"@,
        "latency_hdr"@ != "recall_dist"@,
        "ndcg_dist"@ != "latencies"@,
        "update_search_ratio"@ != "update_unattributed"@,
        "update_attribution"@ != "update_latency_hdr"@,
        "update_failures"@ != "update_p50_time"@,
        "update_failures"@ != "update_p95_time"@,
        "update_failures"@ != "update_p99_time"@,
        "update_mean_time"@ != "update_latencies"@,
        "update_p50_time"@ != "update_p95_time"@,
        "update_p50_time"@ != "update_p99_time"@,
        "update_p95_time"@ != "update_p99_time"@,
{
    reveal_strlit("total_time");
    reveal_strlit("mean_time");
    reveal_strlit("requested_queries");
    reveal_strlit("succeeded_queries");
    reveal_strlit("failed_queries");
    reveal_strlit("parallel");
    reveal_strlit("available_cores");
    reveal_strlit("oversubscribed");
    reveal_strlit("client_cpu_cores_used");
    reveal_strlit("system_cpu_pct");
    reveal_strlit("client_saturated");
    reveal_strlit("saturation_reason");
    reveal_strlit("target_qps");
    reveal_strlit("offered_queries");
    reveal_strlit("dropped_queries");
    reveal_strlit("late_queries");
    reveal_strlit("schedule_delay_p50_time");
    reveal_strlit("schedule_delay_p95_time");
    reveal_strlit("schedule_delay_p99_time");
    reveal_strlit("end_to_end_p50_time");
    reveal_strlit("end_to_end_p95_time");
    reveal_strlit("end_to_end_p99_time");
    reveal_strlit("mean_precision_at_returned");
    reveal_strlit("mean_recall");
    reveal_strlit("recall_p10");
    reveal_strlit("mean_mrr");
    reveal_strlit("mean_ndcg");
    reveal_strlit("std_time");
    reveal_strlit("min_time");
    reveal_strlit("max_time");
    reveal_strlit("rps");
    reveal_strlit("p50_time");
    reveal_strlit("p95_time");
    reveal_strlit("p99_time");
    reveal_strlit("latency_hdr");
    reveal_strlit("precision_at_returned_dist");
    reveal_strlit("recall_dist");
    reveal_strlit("mrr_dist");
    reveal_strlit("ndcg_dist");
    reveal_strlit("precisions_at_returned");
    reveal_strlit("recalls");
    reveal_strlit("mrrs");
    reveal_strlit("ndcgs");
    reveal_strlit("latencies");
    reveal_strlit("update_search_ratio");
    reveal_strlit("update_count");
    reveal_strlit("update_rps");
    reveal_strlit("update_attribution");
    reveal_strlit("update_failures");
    reveal_strlit("update_attribution_detail");
    reveal_strlit("update_unattributed");
    reveal_strlit("update_mean_time");
    reveal_strlit("update_p50_time");
    reveal_strlit("update_p95_time");
    reveal_strlit("update_p99_time");
    reveal_strlit("update_latency_hdr");
    reveal_strlit("update_latencies");
    assert("total_time"@[1] != "target_qps"@[1]);
    assert("total_time"@[0] != "recall_p10"@[0]);
    assert("total_time"@[0] != "update_rps"@[0]);
    assert("mean_time"@[5] != "mean_ndcg"@[5]);
    assert("mean_time"@[0] != "ndcg_dist"@[0]);
    assert("mean_time"@[0] != "latencies"@[0]);
    assert("requested_queries"@[0] != "succeeded_queries"@[0]);
    assert("requested_queries"@[0] != "saturation_reason"@[0]);
    assert("succeeded_queries"@[1] != "saturation_reason"@[1]);
    assert("failed_queries"@[0] != "oversubscribed"@[0]);
    assert("failed_queries"@[0] != "system_cpu_pct"@[0]);
    assert("parallel"@[0] != "mean_mrr"@[0]);
    assert("parallel"@[0] != "std_time"@[0]);
    assert("parallel"@[0] != "min_time"@[0]);
    assert("parallel"@[0] != "max_time"@[0]);
    assert("parallel"@[1] != "p50_time"@[1]);
    assert("parallel"@[1] != "p95_time"@[1]);
    assert("parallel"@[1] != "p99_time"@[1]);
    assert("parallel"@[0] != "mrr_dist"@[0]);
    assert("available_cores"@[0] != "offered_queries"@[0]);
    assert("available_cores"@[0] != "dropped_queries"@[0]);
    assert("available_cores"@[0] != "update_failures"@[0]);
    assert("available_cores"@[0] != "update_p50_time"@[0]);
    assert("available_cores"@[0] != "update_p95_time"@[0]);
    assert("available_cores"@[0] != "update_p99_time"@[0]);
    assert("oversubscribed"@[0] != "system_cpu_pct"@[0]);
    assert("client_saturated"@[0] != "update_mean_time"@[0]);
    assert("client_saturated"@[0] != "update_latencies"@[0]);
    assert("target_qps"@[0] != "recall_p10"@[0]);
    assert("target_qps"@[0] != "update_rps"@[0]);
    assert("offered_queries"@[0] != "dropped_queries"@[0]);
    assert("offered_queries"@[0] != "update_failures"@[0]);
    assert("offered_queries"@[0] != "update_p50_time"@[0]);
    assert("offered_queries"@[0] != "update_p95_time"@[0]);
    assert("offered_queries"@[0] != "update_p99_time"@[0]);
    assert("dropped_queries"@[0] != "update_failures"@[0]);
    assert("dropped_queries"@[0] != "update_p50_time"@[0]);
    assert("dropped_queries"@[0] != "update_p95_time"@[0]);
    assert("dropped_queries"@[0] != "update_p99_time"@[0]);
    assert("late_queries"@[0] != "update_count"@[0]);
    assert("schedule_delay_p50_time"@[16] != "schedule_delay_p95_time"@[16]);
    assert("schedule_delay_p50_time"@[16] != "schedule_delay_p99_time"@[16]);
    assert("schedule_delay_p95_time"@[17] != "schedule_delay_p99_time"@[17]);
    assert("end_to_end_p50_time"@[12] != "end_to_end_p95_time"@[12]);
    assert("end_to_end_p50_time"@[12] != "end_to_end_p99_time"@[12]);
    assert("end_to_end_p50_time"@[0] != "update_search_ratio"@[0]);
    assert("end_to_end_p50_time"@[0] != "update_unattributed"@[0]);
    assert("end_to_end_p95_time"@[13] != "end_to_end_p99_time"@[13]);
    assert("end_to_end_p95_time"@[0] != "update_search_ratio"@[0]);
    assert("end_to_end_p95_time"@[0] != "update_unattributed"@[0]);
    assert("end_to_end_p99_time"@[0] != "update_search_ratio"@[0]);
    assert("end_to_end_p99_time"@[0] != "update_unattributed"@[0]);
    assert("mean_precision_at_returned"@[0] != "precision_at_returned_dist"@[0]);
    assert("mean_recall"@[0] != "latency_hdr"@[0]);
    assert("mean_recall"@[0] != "recall_dist"@[0]);
    assert("recall_p10"@[0] != "update_rps"@[0]);
    assert("mean_mrr"@[0] != "std_time"@[0]);
    assert("mean_mrr"@[1] != "min_time"@[1]);
    assert("mean_mrr"@[1] != "max_time"@[1]);
    assert("mean_mrr"@[0] != "p50_time"@[0]);
    assert("mean_mrr"@[0] != "p95_time"@[0]);
    assert("mean_mrr"@[0] != "p99_time"@[0]);
    assert("mean_mrr"@[1] != "mrr_dist"@[1]);
    assert("mean_ndcg"@[0] != "ndcg_dist"@[0]);
    assert("mean_ndcg"@[0] != "latencies"@[0]);
    assert("std_time"@[0] != "min_time"@[0]);
    assert("std_time"@[0] != "max_time"@[0]);
    assert("std_time"@[0] != "p50_time"@[0]);
    assert("std_time"@[0] != "p95_time"@[0]);
    assert("std_time"@[0] != "p99_time"@[0]);
    assert("std_time"@[0] != "mrr_dist"@[0]);
    assert("min_time"@[1] != "max_time"@[1]);
    assert("min_time"@[0] != "p50_time"@[0]);
    assert("min_time"@[0] != "p95_time"@[0]);
    assert("min_time"@[0] != "p99_time"@[0]);
    assert("min_time"@[1] != "mrr_dist"@[1]);
    assert("max_time"@[0] != "p50_time"@[0]);
    assert("max_time"@[0] != "p95_time"@[0]);
    assert("max_time"@[0] != "p99_time"@[0]);
    assert("max_time"@[1] != "mrr_dist"@[1]);
    assert("p50_time"@[1] != "p95_time"@[1]);
    assert("p50_time"@[1] != "p99_time"@[1]);
    assert("p50_time"@[0] != "mrr_dist"@[0]);
    assert("p95_time"@[2] != "p99_time"@[2]);
    assert("p95_time"@[0] != "mrr_dist"@[0]);
    assert("p99_time"@[0] != "mrr_dist"@[0]);
    assert("latency_hdr"@[0] != "recall_dist"@[0]);
    assert("ndcg_dist"@[0] != "latencies"@[0]);
    assert("update_search_ratio"@[7] != "update_unattributed"@[7]);
    assert("update_attribution"@[7] != "update_latency_hdr"@[7]);
    assert("update_failures"@[7] != "update_p50_time"@[7]);
    assert("update_failures"@[7] != "update_p95_time"@[7]);
    assert("update_failures"@[7] != "update_p99_time"@[7]);
    assert("update_mean_time"@[7] != "update_latencies"@[7]);
    assert("update_p50_time"@[8] != "update_p95_time"@[8]);
    assert("update_p50_time"@[8] != "update_p99_time"@[8]);
    assert("update_p95_time"@[9] != "update_p99_time"@[9]);
}

/// The counts of a run, and what held it back, are written under their own names.
pub proof fn counts_are_written_under_their_names(r: SearchResults, dump: bool)
    ensures
        written(r, dump).member("requested_queries"@) == Some(json::count_view(r.requested_queries)),
        written(r, dump).member("succeeded_queries"@) == Some(json::count_view(r.num_queries)),
        written(r, dump).member("failed_queries"@) == Some(json::count_view(r.failed_queries)),
        written(r, dump).member("parallel"@) == Some(json::count_view(r.parallel)),
        written(r, dump).member("available_cores"@) == Some(json::count_view(r.available_cores)),
        written(r, dump).member("oversubscribed"@) == Some(JsonView::Bool(r.oversubscribed)),
        written(r, dump).member("client_saturated"@) == Some(JsonView::Bool(r.client_saturated)),
        written(r, dump).member("saturation_reason"@) == Some(JsonView::Text(r.saturation_reason@)),
        written(r, dump).member("offered_queries"@) == Some(json::count_view(r.offered_queries)),
        written(r, dump).member("dropped_queries"@) == Some(json::count_view(r.dropped_queries)),
        written(r, dump).member("late_queries"@) == Some(json::count_view(r.late_queries)),
{
    broadcast use json::put_then_member;

    lemma_measured_names();
    let m = results::measured_members(r);
    lemma_beside(m, r, dump, "requested_queries"@);
    lemma_beside(m, r, dump, "succeeded_queries"@);
    lemma_beside(m, r, dump, "failed_queries"@);
    lemma_beside(m, r, dump, "parallel"@);
    lemma_beside(m, r, dump, "available_cores"@);
    lemma_beside(m, r, dump, "oversubscribed"@);
    lemma_beside(m, r, dump, "client_saturated"@);
    lemma_beside(m, r, dump, "saturation_reason"@);
    lemma_beside(m, r, dump, "offered_queries"@);
    lemma_beside(m, r, dump, "dropped_queries"@);
    lemma_beside(m, r, dump, "late_queries"@);
}

/// The times of a run are written under their own names.
pub proof fn times_are_written_under_their_names(r: SearchResults, dump: bool)
    ensures
        written(r, dump).member("total_time"@) == Some(r.total_time@),
        written(r, dump).member("mean_time"@) == Some(r.mean_time@),
        written(r, dump).member("client_cpu_cores_used"@) == Some(r.client_cpu_cores_used@),
        written(r, dump).member("system_cpu_pct"@) == Some(r.system_cpu_pct@),
        written(r, dump).member("target_qps"@) == Some(r.target_qps@),
        written(r, dump).member("std_time"@) == Some(r.std_time@),
        written(r, dump).member("min_time"@) == Some(r.min_time@),
        written(r, dump).member("max_time"@) == Some(r.max_time@),
        written(r, dump).member("rps"@) == Some(r.rps@),
        written(r, dump).member("p50_time"@) == Some(r.p50_time@),
        written(r, dump).member("p95_time"@) == Some(r.p95_time@),
        written(r, dump).member("p99_time"@) == Some(r.p99_time@),
        written(r, dump).member("latency_hdr"@) == Some(r.latency_hdr@),
{
    broadcast use json::put_then_member;

    lemma_measured_names();
    let m = results::measured_members(r);
    lemma_beside(m, r, dump, "total_time"@);
    lemma_beside(m, r, dump, "mean_time"@);
    lemma_beside(m, r, dump, "client_cpu_cores_used"@);
    lemma_beside(m, r, dump, "system_cpu_pct"@);
    lemma_beside(m, r, dump, "target_qps"@);
    lemma_beside(m, r, dump, "std_time"@);
    lemma_beside(m, r, dump, "min_time"@);
    lemma_beside(m, r, dump, "max_time"@);
    lemma_beside(m, r, dump, "rps"@);
    lemma_beside(m, r, dump, "p50_time"@);
    lemma_beside(m, r, dump, "p95_time"@);
    lemma_beside(m, r, dump, "p99_time"@);
    lemma_beside(m, r, dump, "latency_hdr"@);
}

/// The delays of a run are written under their own names.
pub proof fn delays_are_written_under_their_names(r: SearchResults, dump: bool)
    ensures
        written(r, dump).member("schedule_delay_p50_time"@) == Some(r.schedule_delay_p50_time@),
        written(r, dump).member("schedule_delay_p95_time"@) == Some(r.schedule_delay_p95_time@),
        written(r, dump).member("schedule_delay_p99_time"@) == Some(r.schedule_delay_p99_time@),
        written(r, dump).member("end_to_end_p50_time"@) == Some(r.end_to_end_p50_time@),
        written(r, dump).member("end_to_end_p95_time"@) == Some(r.end_to_end_p95_time@),
        written(r, dump).member("end_to_end_p99_time"@) == Some(r.end_to_end_p99_time@),
{
    broadcast use json::put_then_member;

    lemma_measured_names();
    let m = results::measured_members(r);
    lemma_beside(m, r, dump, "schedule_delay_p50_time"@);
    lemma_beside(m, r, dump, "schedule_delay_p95_time"@);
    lemma_beside(m, r, dump, "schedule_delay_p99_time"@);
    lemma_beside(m, r, dump, "end_to_end_p50_time"@);
    lemma_beside(m, r, dump, "end_to_end_p95_time"@);
    lemma_beside(m, r, dump, "end_to_end_p99_time"@);
}

/// The scores of a run are written under their own names.
pub proof fn scores_are_written_under_their_names(r: SearchResults, dump: bool)
    ensures
        written(r, dump).member("mean_precision_at_returned"@) == Some(r.mean_precision_at_returned@),
        written(r, dump).member("mean_recall"@) == Some(r.mean_recall@),
        written(r, dump).member("recall_p10"@) == Some(r.recall_p10@),
        written(r, dump).member("mean_mrr"@) == Some(r.mean_mrr@),
        written(r, dump).member("mean_ndcg"@) == Some(r.mean_ndcg@),
        written(r, dump).member("precision_at_returned_dist"@) == Some(r.precision_at_returned_dist@),
        written(r, dump).member("recall_dist"@) == Some(r.recall_dist@),
        written(r, dump).member("mrr_dist"@) == Some(r.mrr_dist@),
        written(r, dump).member("ndcg_dist"@) == Some(r.ndcg_dist@),
{
    broadcast use json::put_then_member;

    lemma_measured_names();
    let m = results::measured_members(r);
    lemma_beside(m, r, dump, "mean_precision_at_returned"@);
    lemma_beside(m, r, dump, "mean_recall"@);
    lemma_beside(m, r, dump, "recall_p10"@);
    lemma_beside(m, r, dump, "mean_mrr"@);
    lemma_beside(m, r, dump, "mean_ndcg"@);
    lemma_beside(m, r, dump, "precision_at_returned_dist"@);
    lemma_beside(m, r, dump, "recall_dist"@);
    lemma_beside(m, r, dump, "mrr_dist"@);
    lemma_beside(m, r, dump, "ndcg_dist"@);
}

/// The measurements of every query are written exactly where they are asked for, under their own names.
pub proof fn raw_measurements_are_written_where_asked_for(r: SearchResults, dump: bool)
    ensures
        written(r, dump).member("precisions_at_returned"@) == if dump {
            Some(r.precisions_at_returned@)
        } else {
            None
        },
        written(r, dump).member("recalls"@) == if dump {
            Some(r.recalls@)
        } else {
            None
        },
        written(r, dump).member("mrrs"@) == if dump {
            Some(r.mrrs@)
        } else {
            None
        },
        written(r, dump).member("ndcgs"@) == if dump {
            Some(r.ndcgs@)
        } else {
            None
        },
        written(r, dump).member("latencies"@) == if dump {
            Some(r.latencies@)
        } else {
            None
        },
{
    broadcast use {json::put_then_member, lemma_put_some};

    lemma_measured_names();
}

/// What was measured of updates is written where updates ran, each under its own name, and what was not
/// measured is left out.
pub proof fn updates_are_written_under_their_names(r: SearchResults, dump: bool)
    ensures
        r.update_search_ratio matches Some(ratio) ==> {
            let w = written(r, dump);
            &&& w.member("update_search_ratio"@) == Some(JsonView::Text(ratio@))
            &&& w.member("update_count"@) == results::some_count(r.update_count)
            &&& w.member("update_failures"@) == results::some_count(r.update_failures)
            &&& w.member("update_unattributed"@) == results::some_count(r.update_unattributed)
            &&& w.member("update_rps"@) == results::some_view(r.update_rps)
            &&& w.member("update_mean_time"@) == results::some_view(r.update_mean_time)
            &&& w.member("update_p50_time"@) == results::some_view(r.update_p50_time)
            &&& w.member("update_p95_time"@) == results::some_view(r.update_p95_time)
            &&& w.member("update_p99_time"@) == results::some_view(r.update_p99_time)
            &&& w.member("update_attribution"@) == results::some_text(r.update_attribution)
            &&& w.member("update_attribution_detail"@) == results::some_text(r.update_attribution_detail)
        },
        r.update_search_ratio is None ==> {
            let w = written(r, dump);
            &&& w.member("update_search_ratio"@) is None
            &&& w.member("update_count"@) is None
            &&& w.member("update_rps"@) is None
            &&& w.member("update_attribution"@) is None
            &&& w.member("update_failures"@) is None
            &&& w.member("update_attribution_detail"@) is None
            &&& w.member("update_unattributed"@) is None
            &&& w.member("update_mean_time"@) is None
            &&& w.member("update_p50_time"@) is None
            &&& w.member("update_p95_time"@) is None
            &&& w.member("update_p99_time"@) is None
        },
{
    broadcast use {json::put_then_member, lemma_put_some};

    lemma_measured_names();
}

/// The names of parameters, and of the parts of a document, are different.
proof fn lemma_parameter_names()
    ensures
        "dataset"@.len() == 7,
        "experiment"@.len() == 10,
        "parallel"@.len() == 8,
        "top"@.len() == 3,
        "search_params"@.len() == 13,
        "target_qps"@.len() == 10,
        "duration_seconds"@.len() == 16,
        "max_lateness_ms"@.len() == 15,
        "calibration"@.len() == 11,
        "corpus_reuse"@.len() == 12,
        "number_of_shards"@.len() == 16,
        "engine_params"@.len() == 13,
        "params"@.len() == 6,
        "results"@.len() == 7,
        "metrics_schema"@.len() == 14,
        "server_metadata"@.len() == 15,
        "before"@.len() == 6,
        "after"@.len() == 5,
        "dataset"@ != "results"@,
        "experiment"@ != "target_qps"@,
        "search_params"@ != "engine_params"@,
        "duration_seconds"@ != "number_of_shards"@,
        "max_lateness_ms"@ != "server_metadata"@,
        "params"@ != "before"@,
{
    reveal_strlit("dataset");
    reveal_strlit("experiment");
    reveal_strlit("parallel");
    reveal_strlit("top");
    reveal_strlit("search_params");
    reveal_strlit("target_qps");
    reveal_strlit("duration_seconds");
    reveal_strlit("max_lateness_ms");
    reveal_strlit("calibration");
    reveal_strlit("corpus_reuse");
    reveal_strlit("number_of_shards");
    reveal_strlit("engine_params");
    reveal_strlit("params");
    reveal_strlit("results");
    reveal_strlit("metrics_schema");
    reveal_strlit("server_metadata");
    reveal_strlit("before");
    reveal_strlit("after");
    assert("dataset"@[0] != "results"@[0]);
    assert("experiment"@[0] != "target_qps"@[0]);
    assert("search_params"@[0] != "engine_params"@[0]);
    assert("duration_seconds"@[0] != "number_of_shards"@[0]);
    assert("max_lateness_ms"@[0] != "server_metadata"@[0]);
    assert("params"@[0] != "before"@[0]);
}

/// The names of what is written of an upload are different.
proof fn lemma_upload_names()
    ensures
        "experiment"@.len() == 10,
        "dataset"@.len() == 7,
        "parallel"@.len() == 8,
        "batch_size"@.len() == 10,
        "number_of_shards"@.len() == 16,
        "engine_params"@.len() == 13,
        "upload_time"@.len() == 11,
        "total_time"@.len() == 10,
        "upload_count"@.len() == 12,
        "memory_usage"@.len() == 12,
        "experiment"@ != "batch_size"@,
        "experiment"@ != "total_time"@,
        "batch_size"@ != "total_time"@,
        "upload_count"@ != "memory_usage"@,
{
    reveal_strlit("experiment");
    reveal_strlit("dataset");
    reveal_strlit("parallel");
    reveal_strlit("batch_size");
    reveal_strlit("number_of_shards");
    reveal_strlit("engine_params");
    reveal_strlit("upload_time");
    reveal_strlit("total_time");
    reveal_strlit("upload_count");
    reveal_strlit("memory_usage");
    assert("experiment"@[0] != "batch_size"@[0]);
    assert("experiment"@[0] != "total_time"@[0]);
    assert("batch_size"@[0] != "total_time"@[0]);
    assert("upload_count"@[0] != "memory_usage"@[0]);
}

/// The document of a search holds the measurements of the run, what it was asked for, and the state of the
/// server before and after it where one is known.
pub proof fn a_search_is_written_with_its_parameters(
    engine: Seq<char>,
    dataset: Seq<char>,
    params: SearchParams,
    inner: JsonView,
    r: SearchResults,
    stats: Option<GroundTruthStats>,
    numbers: results::ProfileNumbers,
    extras: ResultExtras,
)
    ensures
        ({
            let document = results::search_document(
                engine,
                dataset,
                params,
                inner,
                r,
                stats,
                numbers,
                extras,
            );
            &&& document.member("results"@) == Some(written(r, extras.dump_raw_latencies))
            &&& document.member("metrics_schema"@) == Some(
                JsonView::Object(results::schema_members(stats, numbers)),
            )
            &&& document.member("params"@) matches Some(asked)
            &&& asked.member("dataset"@) == Some(JsonView::Text(dataset))
            &&& asked.member("experiment"@) == Some(JsonView::Text(engine))
            &&& asked.member("parallel"@) == Some(
                json::count_view(
                    match params.parallel {
                        Some(p) => p,
                        None => 1,
                    },
                ),
            )
            &&& asked.member("top"@) == Some(json::count_view(r.top))
            &&& asked.member("search_params"@) == Some(inner)
            &&& asked.member("target_qps"@) == Some(results::or_null(params.target_qps))
            &&& asked.member("duration_seconds"@) == Some(results::or_null(params.duration_seconds))
            &&& asked.member("max_lateness_ms"@) == Some(results::or_null(params.max_lateness_ms))
            &&& asked.member("calibration"@) == results::some_view(extras.calibration)
            &&& asked.member("corpus_reuse"@) == results::some_view(extras.corpus_reuse)
            &&& asked.member("number_of_shards"@) == results::some_view(extras.number_of_shards)
            &&& asked.member("engine_params"@) == Some(extras.engine_params@)
            &&& document.member("server_metadata"@) is Some <==> extras.server_metadata_before is Some
                || extras.server_metadata_after is Some
            &&& document.member("server_metadata"@) matches Some(server) ==> server.member("before"@)
                == Some(results::or_null(extras.server_metadata_before)) && server.member("after"@)
                == Some(results::or_null(extras.server_metadata_after))
        }),
{
    broadcast use {json::put_then_member, lemma_put_some};

    lemma_parameter_names();
}

/// The document of an upload holds what was counted and measured of it, each under its own name.
pub proof fn an_upload_is_written_under_its_names(
    engine: Seq<char>,
    dataset: Seq<char>,
    stats: UploadStats,
    shards: Option<JsonView>,
    engine_params: JsonView,
)
    ensures
        ({
            let document = results::upload_document(engine, dataset, stats, shards, engine_params);
            &&& document.member("params"@) matches Some(asked)
            &&& document.member("results"@) matches Some(measured)
            &&& asked.member("experiment"@) == Some(JsonView::Text(engine))
            &&& asked.member("dataset"@) == Some(JsonView::Text(dataset))
            &&& asked.member("parallel"@) == Some(json::count_view(stats.parallel))
            &&& asked.member("batch_size"@) == Some(json::count_view(stats.batch_size))
            &&& asked.member("number_of_shards"@) == shards
            &&& asked.member("engine_params"@) == Some(engine_params)
            &&& measured.member("upload_time"@) == Some(stats.upload_time@)
            &&& measured.member("total_time"@) == Some(stats.total_time@)
            &&& measured.member("upload_count"@) == Some(json::count_view(stats.upload_count))
            &&& measured.member("memory_usage"@) == Some(stats.memory_usage@)
        }),
{
    broadcast use {json::put_then_member, lemma_put_some};

    lemma_parameter_names();
    lemma_measured_names();
    lemma_upload_names();
}

} // verus!
