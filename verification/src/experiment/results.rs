//! The results of searches and uploads, and the documents that are written of them.
use vstd::prelude::*;

use crate::ground_truth::{GroundTruthProfile, GroundTruthStats};
use crate::json::{self, count_value, new_members, put_member, text_value, Json, JsonView};
use crate::text::{self, decimal_text};

verus! {

/// What a search tunes: the breadth of the search, and what an engine has beside it.
#[derive(Clone)]
pub struct InnerSearchParams {
    pub ef: Option<i64>,
    pub extra: Option<Vec<(String, Json)>>,
}

/// The parameters of a search. Durations and rates are held as JSON numbers.
#[derive(Clone)]
pub struct SearchParams {
    pub parallel: Option<u64>,
    pub top: Option<i64>,
    pub search_params: Option<InnerSearchParams>,
    pub calibration_param: Option<String>,
    /// The bit pattern of the precision that a calibration aims at.
    pub calibration_precision: Option<u64>,
    pub target_qps: Option<Json>,
    pub duration_seconds: Option<Json>,
    pub max_lateness_ms: Option<Json>,
}

/// The results of a search. What is measured as a floating-point number is held as a JSON number; a
/// bit pattern stands beside it where runs are compared by it.
pub struct SearchResults {
    pub top: u64,
    pub requested_queries: u64,
    pub num_queries: u64,
    pub failed_queries: u64,
    pub parallel: u64,
    pub available_cores: u64,
    pub offered_queries: u64,
    pub dropped_queries: u64,
    pub late_queries: u64,
    pub oversubscribed: bool,
    pub client_saturated: bool,
    pub saturation_reason: String,
    pub total_time: Json,
    pub mean_time: Json,
    pub client_cpu_cores_used: Json,
    pub system_cpu_pct: Json,
    pub target_qps: Json,
    pub schedule_delay_p50_time: Json,
    pub schedule_delay_p95_time: Json,
    pub schedule_delay_p99_time: Json,
    pub end_to_end_p50_time: Json,
    pub end_to_end_p95_time: Json,
    pub end_to_end_p99_time: Json,
    pub mean_precision_at_returned: Json,
    pub mean_recall: Json,
    pub recall_p10: Json,
    pub mean_mrr: Json,
    pub mean_ndcg: Json,
    pub std_time: Json,
    pub min_time: Json,
    pub max_time: Json,
    pub rps: Json,
    pub p50_time: Json,
    pub p95_time: Json,
    pub p99_time: Json,
    pub latency_hdr: Json,
    pub precision_at_returned_dist: Json,
    pub recall_dist: Json,
    pub mrr_dist: Json,
    pub ndcg_dist: Json,
    pub precisions_at_returned: Json,
    pub recalls: Json,
    pub mrrs: Json,
    pub ndcgs: Json,
    pub latencies: Json,
    /// The bit pattern of the mean precision; below zero where none was measured.
    pub mean_precision_bits: u64,
    /// The bit pattern of the rate.
    pub rps_bits: u64,
    /// The bit pattern of the tail of the latencies.
    pub p95_bits: u64,
    /// The bit pattern of the end-to-end tail, where it was measured.
    pub end_to_end_p95_bits: Option<u64>,
    pub update_search_ratio: Option<String>,
    pub update_count: Option<u64>,
    pub update_rps: Option<Json>,
    pub update_attribution: Option<String>,
    pub update_failures: Option<u64>,
    pub update_attribution_detail: Option<String>,
    pub update_unattributed: Option<u64>,
    pub update_mean_time: Option<Json>,
    pub update_p50_time: Option<Json>,
    pub update_p95_time: Option<Json>,
    pub update_p99_time: Option<Json>,
    /// The digest of the latencies of the updates.
    pub update_latency_hdr: Json,
    /// The latencies of the updates, where there were any.
    pub update_latencies: Option<Json>,
}

/// A value, or null where there is none.
pub open spec fn or_null(v: Option<Json>) -> JsonView {
    match v {
        Some(j) => j@,
        None => JsonView::Null,
    }
}

/// A value, or null where there is none.
fn value_or_null(v: &Option<Json>) -> (r: Json)
    ensures
        r@ == or_null(*v),
{
    match v {
        Some(j) => j.clone(),
        None => Json::Null,
    }
}

/// The members with one more where it is there.
pub open spec fn put_some(
    members: Seq<(Seq<char>, JsonView)>,
    key: Seq<char>,
    value: Option<JsonView>,
) -> Seq<(Seq<char>, JsonView)> {
    match value {
        Some(v) => json::put(members, key, v),
        None => members,
    }
}

/// The view of a value that may be missing.
pub open spec fn some_view(v: Option<Json>) -> Option<JsonView> {
    match v {
        Some(j) => Some(j@),
        None => None,
    }
}

/// The view of a borrowed value that may be missing.
pub open spec fn some_ref_view(v: Option<&Json>) -> Option<JsonView> {
    match v {
        Some(j) => Some(j@),
        None => None,
    }
}

/// The view of a text that may be missing.
pub open spec fn some_text(v: Option<String>) -> Option<JsonView> {
    match v {
        Some(t) => Some(JsonView::Text(t@)),
        None => None,
    }
}

/// The view of a count that may be missing.
pub open spec fn some_count(v: Option<u64>) -> Option<JsonView> {
    match v {
        Some(n) => Some(json::count_view(n)),
        None => None,
    }
}

/// Adds a value where it is there.
fn put_value(members: &mut Vec<(String, Json)>, key: &str, v: &Option<Json>)
    ensures
        json::members_view(final(members)@) == put_some(
            json::members_view(old(members)@),
            key@,
            some_view(*v),
        ),
{
    if let Some(j) = v {
        put_member(members, key, j.clone());
    }
}

/// Adds a borrowed value where it is there.
fn put_ref(members: &mut Vec<(String, Json)>, key: &str, v: Option<&Json>)
    ensures
        json::members_view(final(members)@) == put_some(
            json::members_view(old(members)@),
            key@,
            some_ref_view(v),
        ),
{
    if let Some(j) = v {
        put_member(members, key, j.clone());
    }
}

/// Adds a text where it is there.
fn put_text(members: &mut Vec<(String, Json)>, key: &str, v: &Option<String>)
    ensures
        json::members_view(final(members)@) == put_some(
            json::members_view(old(members)@),
            key@,
            some_text(*v),
        ),
{
    if let Some(t) = v {
        put_member(members, key, text_value(t.as_str()));
    }
}

/// Adds a count where it is there.
fn put_count(members: &mut Vec<(String, Json)>, key: &str, v: Option<u64>)
    ensures
        json::members_view(final(members)@) == put_some(
            json::members_view(old(members)@),
            key@,
            some_count(v),
        ),
{
    if let Some(n) = v {
        put_member(members, key, count_value(n));
    }
}

/// The numbers of a profile that are written: the mean width and the ceiling as JSON numbers, and the
/// ceiling as a text with four decimals.
pub struct ProfileNumbers {
    pub mean_width: Json,
    pub ceiling: Json,
    pub ceiling_shown: String,
}

/// Why no field of a file is comparable to what other tools write.
pub open spec fn comparability_note(below: nat, queries: nat, top: nat, ceiling: Seq<char>) -> Seq<char> {
    text::decimal(below)
        + " of "@
        + text::decimal(queries)
        + " queries have fewer than top="@
        + text::decimal(top)
        + " valid ground-truth neighbours, so no field in this file is directly comparable to upstream's `mean_precisions`; upstream's value is capped at "@
        + ceiling
        + " on this dataset while our `mean_recall` can still reach 1.0."@
}

/// Why no field of a file is comparable to what other tools write.
fn new_comparability_note(below: u64, queries: u64, top: u64, ceiling: &str) -> (m: String)
    ensures
        m@ == comparability_note(below as nat, queries as nat, top as nat, ceiling@),
{
    let mut m: String = decimal_text(below);
    m.append(" of ");
    m.append(decimal_text(queries).as_str());
    m.append(" queries have fewer than top=");
    m.append(decimal_text(top).as_str());
    m.append(" valid ground-truth neighbours, so no field in this file is directly comparable to upstream's `mean_precisions`; upstream's value is capped at ");
    m.append(ceiling);
    m.append(" on this dataset while our `mean_recall` can still reach 1.0.");
    m
}

/// Whether recall by the ground truth is the same as recall by the number of results.
pub open spec fn comparable(stats: Option<GroundTruthStats>) -> bool {
    stats matches Some(s) && s.queries_below_top == 0
}

/// What the keys of a result file mean, and how wide the ground truth is.
pub open spec fn schema_members(stats: Option<GroundTruthStats>, numbers: ProfileNumbers) -> Seq<
    (Seq<char>, JsonView),
> {
    let m = json::put(json::no_members(), "version"@, json::count_view(2));
    let m = json::put(
        m,
        "mean_precision_at_returned"@,
        JsonView::Text(
            "hits / |deduped results kept (<= top)|, where hits = |results ∩ valid, deduped ground-truth ids in expected[:top]|. Renamed from `mean_precisions` in schema version 2 (#217): that key name is taken by a DIFFERENT formula upstream. -1.0 is the filter-only sentinel (no vector search was run)."@,
        ),
    );
    let m = json::put(
        m,
        "mean_recall"@,
        JsonView::Text(
            "hits / |valid, deduped ground-truth ids in expected[:top]|. The denominator is the ground truth that actually exists, so a query with 3 true neighbours can reach 1.0."@,
        ),
    );
    let m = json::put(
        m,
        "recall_p10"@,
        JsonView::Text(
            "10th percentile of the per-query recall defined above."@,
        ),
    );
    let m = json::put(
        m,
        "upstream_qdrant_mean_precisions"@,
        JsonView::Text(
            "len(ids & expected[:top]) / top — recall@top. This is what upstream qdrant/vector-db-benchmark emits under the key `mean_precisions`. We deliberately do NOT emit that key name. It equals our `mean_recall` only when every ground-truth row has at least `top` valid ids (see `ground_truth` below), and it equals our `mean_precision_at_returned` only when the engine returns a full page of `top` results."@,
        ),
    );
    let m = json::put(
        m,
        "comparable_to_upstream_mean_precisions"@,
        if comparable(stats) {
            JsonView::Text("mean_recall"@)
        } else {
            JsonView::Null
        },
    );
    match stats {
        None => m,
        Some(s) => {
            let m = json::put(m, "ground_truth"@, s.json(numbers.mean_width@, numbers.ceiling@));
            if comparable(stats) {
                m
            } else {
                json::put(
                    m,
                    "comparability_note"@,
                    JsonView::Text(
                        comparability_note(
                            s.queries_below_top as nat,
                            s.queries as nat,
                            s.top as nat,
                            numbers.ceiling_shown@,
                        ),
                    ),
                )
            }
        },
    }
}

/// What the keys of a result file mean, and how wide the ground truth is.
pub fn metrics_schema(stats: Option<GroundTruthStats>, numbers: &ProfileNumbers) -> (r: Json)
    ensures
        r@ == JsonView::Object(schema_members(stats, *numbers)),
{
    broadcast use json::lemma_object_view;

    let same: bool = match stats {
        Some(s) => s.recall_matches_upstream(),
        None => false,
    };
    let mut members: Vec<(String, Json)> = new_members();
    put_member(&mut members, "version", count_value(2));
    put_member(
        &mut members,
        "mean_precision_at_returned",
        text_value(
            "hits / |deduped results kept (<= top)|, where hits = |results ∩ valid, deduped ground-truth ids in expected[:top]|. Renamed from `mean_precisions` in schema version 2 (#217): that key name is taken by a DIFFERENT formula upstream. -1.0 is the filter-only sentinel (no vector search was run).",
        ),
    );
    put_member(
        &mut members,
        "mean_recall",
        text_value(
            "hits / |valid, deduped ground-truth ids in expected[:top]|. The denominator is the ground truth that actually exists, so a query with 3 true neighbours can reach 1.0.",
        ),
    );
    put_member(
        &mut members,
        "recall_p10",
        text_value(
            "10th percentile of the per-query recall defined above.",
        ),
    );
    put_member(
        &mut members,
        "upstream_qdrant_mean_precisions",
        text_value(
            "len(ids & expected[:top]) / top — recall@top. This is what upstream qdrant/vector-db-benchmark emits under the key `mean_precisions`. We deliberately do NOT emit that key name. It equals our `mean_recall` only when every ground-truth row has at least `top` valid ids (see `ground_truth` below), and it equals our `mean_precision_at_returned` only when the engine returns a full page of `top` results.",
        ),
    );
    let field: Json = if same {
        text_value("mean_recall")
    } else {
        Json::Null
    };
    put_member(&mut members, "comparable_to_upstream_mean_precisions", field);
    if let Some(s) = stats {
        put_member(&mut members, "ground_truth", s.to_json(&numbers.mean_width, &numbers.ceiling));
        if !same {
            let note: String = new_comparability_note(
                s.queries_below_top as u64,
                s.queries as u64,
                s.top as u64,
                numbers.ceiling_shown.as_str(),
            );
            put_member(&mut members, "comparability_note", text_value(note.as_str()));
        }
    }
    Json::Object(members)
}

/// The parameters of a search as they are written.
pub open spec fn params_members(
    engine: Seq<char>,
    dataset: Seq<char>,
    params: SearchParams,
    inner: JsonView,
    top: u64,
    extras: ResultExtras,
) -> Seq<(Seq<char>, JsonView)> {
    let m = json::put(json::no_members(), "dataset"@, JsonView::Text(dataset));
    let m = json::put(m, "experiment"@, JsonView::Text(engine));
    let m = json::put(
        m,
        "parallel"@,
        json::count_view(
            match params.parallel {
                Some(p) => p,
                None => 1,
            },
        ),
    );
    let m = json::put(m, "top"@, json::count_view(top));
    let m = json::put(m, "search_params"@, inner);
    let m = json::put(m, "target_qps"@, or_null(params.target_qps));
    let m = json::put(m, "duration_seconds"@, or_null(params.duration_seconds));
    let m = json::put(m, "max_lateness_ms"@, or_null(params.max_lateness_ms));
    let m = put_some(m, "calibration"@, some_view(extras.calibration));
    let m = put_some(m, "corpus_reuse"@, some_view(extras.corpus_reuse));
    let m = put_some(m, "number_of_shards"@, some_view(extras.number_of_shards));
    json::put(m, "engine_params"@, extras.engine_params@)
}

/// What is written of a run beside its parameters and results.
pub struct ResultExtras {
    /// How a swept parameter was chosen.
    pub calibration: Option<Json>,
    /// The verdict on a reused corpus.
    pub corpus_reuse: Option<Json>,
    pub number_of_shards: Option<Json>,
    /// The settings that the run resolved.
    pub engine_params: Json,
    pub server_metadata_before: Option<Json>,
    pub server_metadata_after: Option<Json>,
    /// Whether the measurements of every query are written out.
    pub dump_raw_latencies: bool,
}

/// The parameters of a search as they are written.
fn new_params_members(
    engine: &str,
    dataset: &str,
    params: &SearchParams,
    inner: &Json,
    top: u64,
    extras: &ResultExtras,
) -> (members: Vec<(String, Json)>)
    ensures
        json::members_view(members@) == params_members(
            engine@,
            dataset@,
            *params,
            inner@,
            top,
            *extras,
        ),
{
    let parallel: u64 = match params.parallel {
        Some(p) => p,
        None => 1,
    };
    let mut members: Vec<(String, Json)> = new_members();
    put_member(&mut members, "dataset", text_value(dataset));
    put_member(&mut members, "experiment", text_value(engine));
    put_member(&mut members, "parallel", count_value(parallel));
    put_member(&mut members, "top", count_value(top));
    put_member(&mut members, "search_params", inner.clone());
    put_member(&mut members, "target_qps", value_or_null(&params.target_qps));
    put_member(&mut members, "duration_seconds", value_or_null(&params.duration_seconds));
    put_member(&mut members, "max_lateness_ms", value_or_null(&params.max_lateness_ms));
    put_value(&mut members, "calibration", &extras.calibration);
    put_value(&mut members, "corpus_reuse", &extras.corpus_reuse);
    put_value(&mut members, "number_of_shards", &extras.number_of_shards);
    put_member(&mut members, "engine_params", extras.engine_params.clone());
    members
}

/// The measurements of a search as they are written.
pub open spec fn measured_members(r: SearchResults) -> Seq<(Seq<char>, JsonView)> {
    let m = json::no_members();
    let m = json::put(m, "total_time"@, r.total_time@);
    let m = json::put(m, "mean_time"@, r.mean_time@);
    let m = json::put(m, "requested_queries"@, json::count_view(r.requested_queries));
    let m = json::put(m, "succeeded_queries"@, json::count_view(r.num_queries));
    let m = json::put(m, "failed_queries"@, json::count_view(r.failed_queries));
    let m = json::put(m, "parallel"@, json::count_view(r.parallel));
    let m = json::put(m, "available_cores"@, json::count_view(r.available_cores));
    let m = json::put(m, "oversubscribed"@, JsonView::Bool(r.oversubscribed));
    let m = json::put(m, "client_cpu_cores_used"@, r.client_cpu_cores_used@);
    let m = json::put(m, "system_cpu_pct"@, r.system_cpu_pct@);
    let m = json::put(m, "client_saturated"@, JsonView::Bool(r.client_saturated));
    let m = json::put(m, "saturation_reason"@, JsonView::Text(r.saturation_reason@));
    let m = json::put(m, "target_qps"@, r.target_qps@);
    let m = json::put(m, "offered_queries"@, json::count_view(r.offered_queries));
    let m = json::put(m, "dropped_queries"@, json::count_view(r.dropped_queries));
    let m = json::put(m, "late_queries"@, json::count_view(r.late_queries));
    let m = json::put(m, "schedule_delay_p50_time"@, r.schedule_delay_p50_time@);
    let m = json::put(m, "schedule_delay_p95_time"@, r.schedule_delay_p95_time@);
    let m = json::put(m, "schedule_delay_p99_time"@, r.schedule_delay_p99_time@);
    let m = json::put(m, "end_to_end_p50_time"@, r.end_to_end_p50_time@);
    let m = json::put(m, "end_to_end_p95_time"@, r.end_to_end_p95_time@);
    let m = json::put(m, "end_to_end_p99_time"@, r.end_to_end_p99_time@);
    let m = json::put(m, "mean_precision_at_returned"@, r.mean_precision_at_returned@);
    let m = json::put(m, "mean_recall"@, r.mean_recall@);
    let m = json::put(m, "recall_p10"@, r.recall_p10@);
    let m = json::put(m, "mean_mrr"@, r.mean_mrr@);
    let m = json::put(m, "mean_ndcg"@, r.mean_ndcg@);
    let m = json::put(m, "std_time"@, r.std_time@);
    let m = json::put(m, "min_time"@, r.min_time@);
    let m = json::put(m, "max_time"@, r.max_time@);
    let m = json::put(m, "rps"@, r.rps@);
    let m = json::put(m, "p50_time"@, r.p50_time@);
    let m = json::put(m, "p95_time"@, r.p95_time@);
    let m = json::put(m, "p99_time"@, r.p99_time@);
    let m = json::put(m, "latency_hdr"@, r.latency_hdr@);
    let m = json::put(m, "precision_at_returned_dist"@, r.precision_at_returned_dist@);
    let m = json::put(m, "recall_dist"@, r.recall_dist@);
    let m = json::put(m, "mrr_dist"@, r.mrr_dist@);
    let m = json::put(m, "ndcg_dist"@, r.ndcg_dist@);
    m
}

/// The measurements of a search as they are written.
fn new_measured_members(r: &SearchResults) -> (members: Vec<(String, Json)>)
    ensures
        json::members_view(members@) == measured_members(*r),
{
    let mut members: Vec<(String, Json)> = new_members();
    put_member(&mut members, "total_time", r.total_time.clone());
    put_member(&mut members, "mean_time", r.mean_time.clone());
    put_member(&mut members, "requested_queries", count_value(r.requested_queries));
    put_member(&mut members, "succeeded_queries", count_value(r.num_queries));
    put_member(&mut members, "failed_queries", count_value(r.failed_queries));
    put_member(&mut members, "parallel", count_value(r.parallel));
    put_member(&mut members, "available_cores", count_value(r.available_cores));
    put_member(&mut members, "oversubscribed", Json::Bool(r.oversubscribed));
    put_member(&mut members, "client_cpu_cores_used", r.client_cpu_cores_used.clone());
    put_member(&mut members, "system_cpu_pct", r.system_cpu_pct.clone());
    put_member(&mut members, "client_saturated", Json::Bool(r.client_saturated));
    put_member(&mut members, "saturation_reason", text_value(r.saturation_reason.as_str()));
    put_member(&mut members, "target_qps", r.target_qps.clone());
    put_member(&mut members, "offered_queries", count_value(r.offered_queries));
    put_member(&mut members, "dropped_queries", count_value(r.dropped_queries));
    put_member(&mut members, "late_queries", count_value(r.late_queries));
    put_member(&mut members, "schedule_delay_p50_time", r.schedule_delay_p50_time.clone());
    put_member(&mut members, "schedule_delay_p95_time", r.schedule_delay_p95_time.clone());
    put_member(&mut members, "schedule_delay_p99_time", r.schedule_delay_p99_time.clone());
    put_member(&mut members, "end_to_end_p50_time", r.end_to_end_p50_time.clone());
    put_member(&mut members, "end_to_end_p95_time", r.end_to_end_p95_time.clone());
    put_member(&mut members, "end_to_end_p99_time", r.end_to_end_p99_time.clone());
    put_member(&mut members, "mean_precision_at_returned", r.mean_precision_at_returned.clone());
    put_member(&mut members, "mean_recall", r.mean_recall.clone());
    put_member(&mut members, "recall_p10", r.recall_p10.clone());
    put_member(&mut members, "mean_mrr", r.mean_mrr.clone());
    put_member(&mut members, "mean_ndcg", r.mean_ndcg.clone());
    put_member(&mut members, "std_time", r.std_time.clone());
    put_member(&mut members, "min_time", r.min_time.clone());
    put_member(&mut members, "max_time", r.max_time.clone());
    put_member(&mut members, "rps", r.rps.clone());
    put_member(&mut members, "p50_time", r.p50_time.clone());
    put_member(&mut members, "p95_time", r.p95_time.clone());
    put_member(&mut members, "p99_time", r.p99_time.clone());
    put_member(&mut members, "latency_hdr", r.latency_hdr.clone());
    put_member(&mut members, "precision_at_returned_dist", r.precision_at_returned_dist.clone());
    put_member(&mut members, "recall_dist", r.recall_dist.clone());
    put_member(&mut members, "mrr_dist", r.mrr_dist.clone());
    put_member(&mut members, "ndcg_dist", r.ndcg_dist.clone());
    members
}

/// The measurements of every query, where they are written out.
pub open spec fn with_raw(
    m: Seq<(Seq<char>, JsonView)>,
    r: SearchResults,
    dump: bool,
) -> Seq<(Seq<char>, JsonView)> {
    if dump {
        let m = json::put(m, "precisions_at_returned"@, r.precisions_at_returned@);
        let m = json::put(m, "recalls"@, r.recalls@);
        let m = json::put(m, "mrrs"@, r.mrrs@);
        let m = json::put(m, "ndcgs"@, r.ndcgs@);
        json::put(m, "latencies"@, r.latencies@)
    } else {
        m
    }
}

/// The measurements of updates, where updates ran beside the searches. What an engine did not measure
/// is left out, not written as zero.
pub open spec fn with_updates(
    m: Seq<(Seq<char>, JsonView)>,
    r: SearchResults,
    dump: bool,
) -> Seq<(Seq<char>, JsonView)> {
    match r.update_search_ratio {
        None => m,
        Some(ratio) => {
            let m = json::put(m, "update_search_ratio"@, JsonView::Text(ratio@));
            let m = put_some(m, "update_count"@, some_count(r.update_count));
            let m = put_some(m, "update_rps"@, some_view(r.update_rps));
            let m = put_some(m, "update_attribution"@, some_text(r.update_attribution));
            let m = put_some(m, "update_failures"@, some_count(r.update_failures));
            let m = put_some(
                m,
                "update_attribution_detail"@,
                some_text(r.update_attribution_detail),
            );
            let m = put_some(m, "update_unattributed"@, some_count(r.update_unattributed));
            let m = put_some(m, "update_mean_time"@, some_view(r.update_mean_time));
            let m = put_some(m, "update_p50_time"@, some_view(r.update_p50_time));
            let m = put_some(m, "update_p95_time"@, some_view(r.update_p95_time));
            let m = put_some(m, "update_p99_time"@, some_view(r.update_p99_time));
            match r.update_latencies {
                None => m,
                Some(raw) => {
                    let m = json::put(m, "update_latency_hdr"@, r.update_latency_hdr@);
                    if dump {
                        json::put(m, "update_latencies"@, raw@)
                    } else {
                        m
                    }
                },
            }
        },
    }
}

/// Adds the measurements of every query and of the updates.
fn add_raw_and_updates(members: &mut Vec<(String, Json)>, r: &SearchResults, dump: bool)
    ensures
        json::members_view(final(members)@) == with_updates(
            with_raw(json::members_view(old(members)@), *r, dump),
            *r,
            dump,
        ),
{
    if dump {
        put_member(members, "precisions_at_returned", r.precisions_at_returned.clone());
        put_member(members, "recalls", r.recalls.clone());
        put_member(members, "mrrs", r.mrrs.clone());
        put_member(members, "ndcgs", r.ndcgs.clone());
        put_member(members, "latencies", r.latencies.clone());
    }
    if let Some(ratio) = &r.update_search_ratio {
        put_member(members, "update_search_ratio", text_value(ratio.as_str()));
        put_count(members, "update_count", r.update_count);
        put_value(members, "update_rps", &r.update_rps);
        put_text(members, "update_attribution", &r.update_attribution);
        put_count(members, "update_failures", r.update_failures);
        put_text(members, "update_attribution_detail", &r.update_attribution_detail);
        put_count(members, "update_unattributed", r.update_unattributed);
        put_value(members, "update_mean_time", &r.update_mean_time);
        put_value(members, "update_p50_time", &r.update_p50_time);
        put_value(members, "update_p95_time", &r.update_p95_time);
        put_value(members, "update_p99_time", &r.update_p99_time);
        if let Some(raw) = &r.update_latencies {
            put_member(members, "update_latency_hdr", r.update_latency_hdr.clone());
            if dump {
                put_member(members, "update_latencies", raw.clone());
            }
        }
    }
}

/// The widths of the ground truth at the number of results that a run used.
pub open spec fn is_profile_at(
    profile: Option<&GroundTruthProfile>,
    top: u64,
    stats: Option<GroundTruthStats>,
) -> bool {
    match profile {
        None => stats is None,
        Some(p) => if top == 0 || p.rows().len() == 0 {
            stats is None
        } else {
            let n = p.rows().len() as int;
            &&& stats matches Some(s)
            &&& s.queries == n
            &&& s.top == top
            &&& s.width_sum == crate::ground_truth::width_sum(p.rows(), top as nat, n)
            &&& s.min_width == crate::ground_truth::least_width(p.rows(), top as nat, n)
            &&& s.queries_below_top == crate::ground_truth::narrow_rows(p.rows(), top as nat, n)
        },
    }
}

/// The document of a search.
pub open spec fn search_document(
    engine: Seq<char>,
    dataset: Seq<char>,
    params: SearchParams,
    inner: JsonView,
    r: SearchResults,
    stats: Option<GroundTruthStats>,
    numbers: ProfileNumbers,
    extras: ResultExtras,
) -> JsonView {
    let m = json::put(
        json::no_members(),
        "params"@,
        JsonView::Object(params_members(engine, dataset, params, inner, r.top, extras)),
    );
    let m = json::put(
        m,
        "results"@,
        JsonView::Object(
            with_updates(
                with_raw(measured_members(r), r, extras.dump_raw_latencies),
                r,
                extras.dump_raw_latencies,
            ),
        ),
    );
    let m = json::put(m, "metrics_schema"@, JsonView::Object(schema_members(stats, numbers)));
    JsonView::Object(
        if extras.server_metadata_before is Some || extras.server_metadata_after is Some {
            let both = json::put(
                json::no_members(),
                "before"@,
                or_null(extras.server_metadata_before),
            );
            json::put(
                m,
                "server_metadata"@,
                JsonView::Object(
                    json::put(both, "after"@, or_null(extras.server_metadata_after)),
                ),
            )
        } else {
            m
        },
    )
}

/// The document of a search: its parameters, its measurements, what its keys mean, and the state of the
/// server where that is known. The ground truth is profiled at the number of results that the run used.
pub fn build_search_result_json(
    engine_name: &str,
    dataset_name: &str,
    search_params: &SearchParams,
    inner: &Json,
    results: &SearchResults,
    ground_truth: Option<&GroundTruthProfile>,
    numbers: &ProfileNumbers,
    extras: &ResultExtras,
) -> (r: Json)
    requires
        results.top <= usize::MAX,
    ensures
        exists|stats: Option<GroundTruthStats>|
            is_profile_at(ground_truth, results.top, stats) && r@ == #[trigger] search_document(
                engine_name@,
                dataset_name@,
                *search_params,
                inner@,
                *results,
                stats,
                *numbers,
                *extras,
            ),
{
    broadcast use json::lemma_object_view;

    let stats: Option<GroundTruthStats> = match ground_truth {
        Some(p) => p.stats(results.top as usize),
        None => None,
    };
    let mut measured: Vec<(String, Json)> = new_measured_members(results);
    add_raw_and_updates(&mut measured, results, extras.dump_raw_latencies);
    let mut members: Vec<(String, Json)> = new_members();
    put_member(
        &mut members,
        "params",
        Json::Object(
            new_params_members(
                engine_name,
                dataset_name,
                search_params,
                inner,
                results.top,
                extras,
            ),
        ),
    );
    put_member(&mut members, "results", Json::Object(measured));
    put_member(&mut members, "metrics_schema", metrics_schema(stats, numbers));
    if extras.server_metadata_before.is_some() || extras.server_metadata_after.is_some() {
        let mut both: Vec<(String, Json)> = new_members();
        put_member(&mut both, "before", value_or_null(&extras.server_metadata_before));
        put_member(&mut both, "after", value_or_null(&extras.server_metadata_after));
        put_member(&mut members, "server_metadata", Json::Object(both));
    }
    let r: Json = Json::Object(members);
    assert(is_profile_at(ground_truth, results.top, stats));
    assert(r@ == search_document(
        engine_name@,
        dataset_name@,
        *search_params,
        inner@,
        *results,
        stats,
        *numbers,
        *extras,
    ));
    r
}

/// What was counted and measured of an upload.
pub struct UploadStats {
    pub parallel: u64,
    pub batch_size: u64,
    pub upload_time: Json,
    pub total_time: Json,
    pub upload_count: u64,
    pub memory_usage: Json,
}

/// The document of an upload.
pub open spec fn upload_document(
    engine: Seq<char>,
    dataset: Seq<char>,
    stats: UploadStats,
    shards: Option<JsonView>,
    engine_params: JsonView,
) -> JsonView {
    let p = json::put(json::no_members(), "experiment"@, JsonView::Text(engine));
    let p = json::put(p, "dataset"@, JsonView::Text(dataset));
    let p = json::put(p, "parallel"@, json::count_view(stats.parallel));
    let p = json::put(p, "batch_size"@, json::count_view(stats.batch_size));
    let p = put_some(p, "number_of_shards"@, shards);
    let p = json::put(p, "engine_params"@, engine_params);
    let r = json::put(json::no_members(), "upload_time"@, stats.upload_time@);
    let r = json::put(r, "total_time"@, stats.total_time@);
    let r = json::put(r, "upload_count"@, json::count_view(stats.upload_count));
    let r = json::put(r, "memory_usage"@, stats.memory_usage@);
    JsonView::Object(
        json::put(
            json::put(json::no_members(), "params"@, JsonView::Object(p)),
            "results"@,
            JsonView::Object(r),
        ),
    )
}

/// The document of an upload.
pub fn build_upload_result_json(
    engine_name: &str,
    dataset_name: &str,
    stats: &UploadStats,
    number_of_shards: Option<&Json>,
    engine_params: &Json,
) -> (r: Json)
    ensures
        r@ == upload_document(
            engine_name@,
            dataset_name@,
            *stats,
            some_ref_view(number_of_shards),
            engine_params@,
        ),
{
    broadcast use json::lemma_object_view;

    let mut params: Vec<(String, Json)> = new_members();
    put_member(&mut params, "experiment", text_value(engine_name));
    put_member(&mut params, "dataset", text_value(dataset_name));
    put_member(&mut params, "parallel", count_value(stats.parallel));
    put_member(&mut params, "batch_size", count_value(stats.batch_size));
    put_ref(&mut params, "number_of_shards", number_of_shards);
    put_member(&mut params, "engine_params", engine_params.clone());
    let mut results: Vec<(String, Json)> = new_members();
    put_member(&mut results, "upload_time", stats.upload_time.clone());
    put_member(&mut results, "total_time", stats.total_time.clone());
    put_member(&mut results, "upload_count", count_value(stats.upload_count));
    put_member(&mut results, "memory_usage", stats.memory_usage.clone());
    let mut members: Vec<(String, Json)> = new_members();
    put_member(&mut members, "params", Json::Object(params));
    put_member(&mut members, "results", Json::Object(results));
    Json::Object(members)
}

/// A text with every colon replaced by a letter that file names may hold.
pub open spec fn file_safe(ratio: Seq<char>) -> Seq<char>
    decreases ratio.len(),
{
    if ratio.len() == 0 {
        ratio
    } else {
        file_safe(ratio.drop_last()).push(
            if ratio.last() == ':' {
                'x'
            } else {
                ratio.last()
            },
        )
    }
}

/// A text with every colon replaced by a letter that file names may hold.
fn new_file_safe(ratio: &str) -> (r: String)
    ensures
        r@ == file_safe(ratio@),
{
    let chars: Vec<char> = text::chars_of(ratio);
    let mut r: String = String::new();
    let mut i: usize = 0;
    assert(ratio@.take(0) =~= Seq::empty());
    while i < chars.len()
        invariant
            i <= chars@.len(),
            chars@ == ratio@,
            r@ == file_safe(ratio@.take(i as int)),
        decreases chars@.len() - i,
    {
        assert(ratio@.take(i + 1).drop_last() =~= ratio@.take(i as int));
        r.push(
            if chars[i] == ':' {
                'x'
            } else {
                chars[i]
            },
        );
        i += 1;
    }
    assert(ratio@.take(i as int) =~= ratio@);
    r
}

/// The part of a file name that tells a run with updates.
pub open spec fn mixed_tag(ratio: Option<Seq<char>>) -> Seq<char> {
    match ratio {
        Some(r) => "-mixed-"@ + file_safe(r),
        None => ""@,
    }
}

/// The name of the file of a search.
pub open spec fn search_file(engine: Seq<char>, dataset: Seq<char>, id: nat, tag: Seq<char>, pid: nat, time: Seq<char>) -> Seq<char> {
    engine
        + "-"@
        + dataset
        + "-search-"@
        + text::decimal(id)
        + tag
        + "-"@
        + text::decimal(pid)
        + "-"@
        + time
        + ".json"@
}

/// The name of the file of a search.
fn new_search_file(engine: &str, dataset: &str, id: u64, tag: &str, pid: u64, time: &str) -> (m: String)
    ensures
        m@ == search_file(engine@, dataset@, id as nat, tag@, pid as nat, time@),
{
    let mut m: String = engine.to_owned();
    m.append("-");
    m.append(dataset);
    m.append("-search-");
    m.append(decimal_text(id).as_str());
    m.append(tag);
    m.append("-");
    m.append(decimal_text(pid).as_str());
    m.append("-");
    m.append(time);
    m.append(".json");
    m
}

/// The name of the file of an upload.
pub open spec fn upload_file(engine: Seq<char>, dataset: Seq<char>, count: nat, time: Seq<char>) -> Seq<char> {
    engine
        + "-"@
        + dataset
        + "-upload-0-"@
        + text::decimal(count)
        + "-"@
        + time
        + ".json"@
}

/// The name of the file of an upload.
fn new_upload_file(engine: &str, dataset: &str, count: u64, time: &str) -> (m: String)
    ensures
        m@ == upload_file(engine@, dataset@, count as nat, time@),
{
    let mut m: String = engine.to_owned();
    m.append("-");
    m.append(dataset);
    m.append("-upload-0-");
    m.append(decimal_text(count).as_str());
    m.append("-");
    m.append(time);
    m.append(".json");
    m
}

/// The name of the file of a search.
pub fn search_file_name(
    engine_name: &str,
    dataset_name: &str,
    search_id: u64,
    ratio: Option<&String>,
    pid: u64,
    timestamp: &str,
) -> (r: String)
    ensures
        r@ == search_file(
            engine_name@,
            dataset_name@,
            search_id as nat,
            mixed_tag(
                match ratio {
                    Some(t) => Some(t@),
                    None => None,
                },
            ),
            pid as nat,
            timestamp@,
        ),
{
    let mut tag: String = "".to_owned();
    if let Some(t) = ratio {
        tag = "-mixed-".to_owned();
        tag.append(new_file_safe(t.as_str()).as_str());
    }
    new_search_file(engine_name, dataset_name, search_id, tag.as_str(), pid, timestamp)
}

/// The name of the file of an upload.
pub fn upload_file_name(
    engine_name: &str,
    dataset_name: &str,
    upload_count: u64,
    timestamp: &str,
) -> (r: String)
    ensures
        r@ == upload_file(engine_name@, dataset_name@, upload_count as nat, timestamp@),
{
    new_upload_file(engine_name, dataset_name, upload_count, timestamp)
}

/// What is said of updates that did not overwrite a row.
pub open spec fn attribution_error(unattributed: nat, dispatched: nat, detail: Seq<char>) -> Seq<char> {
    "mixed workload: "@
        + text::decimal(unattributed)
        + " of "@
        + text::decimal(dispatched)
        + " dispatched updates were accepted by the server, which reported that the row each one addressed did not already exist. Signal read: "@
        + detail
        + ". Those writes therefore did not OVERWRITE a row already in the corpus this run searched, and `recall` cannot show it — the rows the queries score against are there either way (issue #293). The signal does not say WHY the rows were absent; all of these produce it: the update half addressing a different key/collection than the search half; a reused corpus (`--skip-upload`) that is shorter than the dataset or was written with a different document shape; or rows lost mid-run to eviction or failover. Re-upload this config, or pass --allow-partial-corpus to measure a deliberately partial corpus anyway."@
}

/// What is said of updates that did not overwrite a row.
fn new_attribution_error(unattributed: u64, dispatched: u64, detail: &str) -> (m: String)
    ensures
        m@ == attribution_error(unattributed as nat, dispatched as nat, detail@),
{
    let mut m: String = "mixed workload: ".to_owned();
    m.append(decimal_text(unattributed).as_str());
    m.append(" of ");
    m.append(decimal_text(dispatched).as_str());
    m.append(" dispatched updates were accepted by the server, which reported that the row each one addressed did not already exist. Signal read: ");
    m.append(detail);
    m.append(". Those writes therefore did not OVERWRITE a row already in the corpus this run searched, and `recall` cannot show it — the rows the queries score against are there either way (issue #293). The signal does not say WHY the rows were absent; all of these produce it: the update half addressing a different key/collection than the search half; a reused corpus (`--skip-upload`) that is shorter than the dataset or was written with a different document shape; or rows lost mid-run to eviction or failover. Re-upload this config, or pass --allow-partial-corpus to measure a deliberately partial corpus anyway.");
    m
}

/// Why a run with such updates goes on.
pub open spec fn waiver_note(why: Seq<char>) -> Seq<char> {
    "\t  (continuing because "@
        + why
        + "; `update_unattributed` is recorded in the result file)"@
}

/// Why a run with such updates goes on.
fn new_waiver_note(why: &str) -> (m: String)
    ensures
        m@ == waiver_note(why@),
{
    let mut m: String = "\t  (continuing because ".to_owned();
    m.append(why);
    m.append("; `update_unattributed` is recorded in the result file)");
    m
}

/// A count, or none.
pub open spec fn or_zero(n: Option<u64>) -> u64 {
    match n {
        Some(n) => n,
        None => 0,
    }
}

/// The updates that were sent: those that were applied, those that hit no row and those that failed.
pub open spec fn dispatched(r: SearchResults) -> int {
    or_zero(r.update_count) + or_zero(r.update_unattributed) + or_zero(r.update_failures)
}

/// What is said of the updates of a run.
pub open spec fn attribution_message(r: SearchResults) -> Seq<char> {
    attribution_error(
        or_zero(r.update_unattributed) as nat,
        dispatched(r) as nat,
        match r.update_attribution_detail {
            Some(d) => d@,
            None => "no detail recorded"@,
        },
    )
}

/// Why updates without a row are accepted.
pub open spec fn waiver(allow_partial_corpus: bool) -> Seq<char> {
    if allow_partial_corpus {
        "--allow-partial-corpus is set"@
    } else {
        "the corpus size could only be estimated, so the reuse check warned rather than rejecting, and this gate honours the same downgrade"@
    }
}

/// What becomes of a run: its results with what is warned of, or why it is rejected.
pub enum GateOutcome {
    Accepted(SearchResults),
    Waived { results: SearchResults, warning: String, reason: String },
    Rejected(String),
}

/// Decides whether updates that did not overwrite a row reject a run. They do unless the corpus was
/// allowed to be partial, or its size was only estimated; a run that measured none passes.
pub fn gate_update_attribution(
    results: SearchResults,
    allow_partial_corpus: bool,
    corpus_size_was_estimated: bool,
) -> (o: GateOutcome)
    requires
        dispatched(results) <= u64::MAX,
    ensures
        or_zero(results.update_unattributed) == 0 ==> o == GateOutcome::Accepted(results),
        or_zero(results.update_unattributed) > 0 && (allow_partial_corpus
            || corpus_size_was_estimated) ==> {
            &&& o matches GateOutcome::Waived { results: kept, warning, reason }
            &&& kept == results
            &&& warning@ == "\t⚠ WARNING: "@ + attribution_message(results)
            &&& reason@ == waiver_note(waiver(allow_partial_corpus))
        },
        or_zero(results.update_unattributed) > 0 && !allow_partial_corpus
            && !corpus_size_was_estimated ==> (o matches GateOutcome::Rejected(m) && m@
            == attribution_message(results)),
{
    let unattributed: u64 = match results.update_unattributed {
        Some(n) => n,
        None => 0,
    };
    if unattributed == 0 {
        return GateOutcome::Accepted(results);
    }
    let applied: u64 = match results.update_count {
        Some(n) => n,
        None => 0,
    };
    let failed: u64 = match results.update_failures {
        Some(n) => n,
        None => 0,
    };
    let m: String = {
        let detail: &str = match &results.update_attribution_detail {
            Some(d) => d.as_str(),
            None => "no detail recorded",
        };
        new_attribution_error(unattributed, applied + unattributed + failed, detail)
    };
    if allow_partial_corpus || corpus_size_was_estimated {
        let why: &str = if allow_partial_corpus {
            "--allow-partial-corpus is set"
        } else {
            "the corpus size could only be estimated, so the reuse check warned rather than rejecting, and this gate honours the same downgrade"
        };
        let mut warning: String = "\t⚠ WARNING: ".to_owned();
        warning.append(m.as_str());
        return GateOutcome::Waived { results, warning, reason: new_waiver_note(why) };
    }
    GateOutcome::Rejected(m)
}

/// What is warned of a search that lost queries.
pub open spec fn failed_queries_line(failed: nat, requested: nat, succeeded: nat) -> Seq<char> {
    "\t⚠ WARNING: "@
        + text::decimal(failed)
        + "/"@
        + text::decimal(requested)
        + " queries FAILED (only "@
        + text::decimal(succeeded)
        + " succeeded); latency/recall/QPS above reflect the successful subset only"@
}

/// What is warned of a search that lost queries.
fn new_failed_queries_line(failed: u64, requested: u64, succeeded: u64) -> (m: String)
    ensures
        m@ == failed_queries_line(failed as nat, requested as nat, succeeded as nat),
{
    let mut m: String = "\t⚠ WARNING: ".to_owned();
    m.append(decimal_text(failed).as_str());
    m.append("/");
    m.append(decimal_text(requested).as_str());
    m.append(" queries FAILED (only ");
    m.append(decimal_text(succeeded).as_str());
    m.append(" succeeded); latency/recall/QPS above reflect the successful subset only");
    m
}

/// What is warned of requests that were dropped.
pub open spec fn dropped_requests_line(dropped: nat) -> Seq<char> {
    "\t⚠ WARNING: "@
        + text::decimal(dropped)
        + " offered requests were dropped after exceeding the dispatch-lateness limit"@
}

/// What is warned of requests that were dropped.
fn new_dropped_requests_line(dropped: u64) -> (m: String)
    ensures
        m@ == dropped_requests_line(dropped as nat),
{
    let mut m: String = "\t⚠ WARNING: ".to_owned();
    m.append(decimal_text(dropped).as_str());
    m.append(" offered requests were dropped after exceeding the dispatch-lateness limit");
    m
}

/// What is warned of a search that the client held back.
pub open spec fn saturated_line(reason: Seq<char>, cpu: Seq<char>) -> Seq<char> {
    "\t⚠ WARNING: CLIENT LIKELY SATURATED ("@
        + reason
        + ") — client used "@
        + cpu
        + "; QPS/latency may reflect the client, not the database"@
}

/// What is warned of a search that the client held back.
fn new_saturated_line(reason: &str, cpu: &str) -> (m: String)
    ensures
        m@ == saturated_line(reason@, cpu@),
{
    let mut m: String = "\t⚠ WARNING: CLIENT LIKELY SATURATED (".to_owned();
    m.append(reason);
    m.append(") — client used ");
    m.append(cpu);
    m.append("; QPS/latency may reflect the client, not the database");
    m
}

/// What is warned of the results of a search: queries that failed, requests that were dropped where a
/// rate was set, and a client that held it back. `cpu` shows what the client used.
pub open spec fn result_warnings(r: SearchResults, cpu: Seq<char>) -> Seq<Seq<char>> {
    let a = if r.failed_queries > 0 {
        seq![
            failed_queries_line(
                r.failed_queries as nat,
                r.requested_queries as nat,
                r.num_queries as nat,
            ),
        ]
    } else {
        Seq::empty()
    };
    let b = if !(r.target_qps@ is Null) && r.dropped_queries > 0 {
        a.push(dropped_requests_line(r.dropped_queries as nat))
    } else {
        a
    };
    if r.client_saturated {
        b.push(saturated_line(r.saturation_reason@, cpu))
    } else {
        b
    }
}

/// What is warned of the results of a search.
pub fn warn_of(r: &SearchResults, cpu: &str) -> (w: Vec<String>)
    ensures
        text::texts_view(w@) == result_warnings(*r, cpu@),
{
    let mut w: Vec<String> = Vec::new();
    assert(text::texts_view(w@) =~= Seq::empty());
    if r.failed_queries > 0 {
        w.push(new_failed_queries_line(r.failed_queries, r.requested_queries, r.num_queries));
        assert(text::texts_view(w@) =~= seq![
            failed_queries_line(
                r.failed_queries as nat,
                r.requested_queries as nat,
                r.num_queries as nat,
            ),
        ]);
    }
    let rated: bool = match &r.target_qps {
        Json::Null => false,
        _ => true,
    };
    if rated && r.dropped_queries > 0 {
        let line: String = new_dropped_requests_line(r.dropped_queries);
        let ghost before = text::texts_view(w@);
        w.push(line);
        assert(text::texts_view(w@) =~= before.push(line@));
    }
    if r.client_saturated {
        let line: String = new_saturated_line(r.saturation_reason.as_str(), cpu);
        let ghost before = text::texts_view(w@);
        w.push(line);
        assert(text::texts_view(w@) =~= before.push(line@));
    }
    w
}

/// The name under which other tools write recall by the number of results is used for no measurement
/// of a run and for no key of the schema.
pub proof fn the_other_name_is_never_written(
    r: SearchResults,
    dump: bool,
    stats: Option<GroundTruthStats>,
    numbers: ProfileNumbers,
)
    ensures
        json::member_of(with_updates(with_raw(measured_members(r), r, dump), r, dump), "mean_precisions"@)
            is None,
        json::member_of(schema_members(stats, numbers), "mean_precisions"@) is None,
{
    lemma_measured(r);
    lemma_raw_and_updates(measured_members(r), r, dump);
    lemma_schema(stats, numbers);
}

/// Another member does not bring a key.
proof fn lemma_put(m: Seq<(Seq<char>, JsonView)>, k: Seq<char>, v: JsonView, key: Seq<char>)
    requires
        k != key,
        json::member_of(m, key) is None,
    ensures
        json::member_of(json::put(m, k, v), key) is None,
{
    json::put_then_member(m, k, v, key);
}


/// The measurements do not have the other name.
proof fn lemma_measured(r: SearchResults)
    ensures
        json::member_of(measured_members(r), "mean_precisions"@) is None,
{
    let key = "mean_precisions"@;
    lemma_no_other_name();
    let m = json::no_members();
    lemma_put(m, "total_time"@, r.total_time@, key);
    let m = json::put(m, "total_time"@, r.total_time@);
    lemma_put(m, "mean_time"@, r.mean_time@, key);
    let m = json::put(m, "mean_time"@, r.mean_time@);
    lemma_put(m, "requested_queries"@, json::count_view(r.requested_queries), key);
    let m = json::put(m, "requested_queries"@, json::count_view(r.requested_queries));
    lemma_put(m, "succeeded_queries"@, json::count_view(r.num_queries), key);
    let m = json::put(m, "succeeded_queries"@, json::count_view(r.num_queries));
    lemma_put(m, "failed_queries"@, json::count_view(r.failed_queries), key);
    let m = json::put(m, "failed_queries"@, json::count_view(r.failed_queries));
    lemma_put(m, "parallel"@, json::count_view(r.parallel), key);
    let m = json::put(m, "parallel"@, json::count_view(r.parallel));
    lemma_put(m, "available_cores"@, json::count_view(r.available_cores), key);
    let m = json::put(m, "available_cores"@, json::count_view(r.available_cores));
    lemma_put(m, "oversubscribed"@, JsonView::Bool(r.oversubscribed), key);
    let m = json::put(m, "oversubscribed"@, JsonView::Bool(r.oversubscribed));
    lemma_put(m, "client_cpu_cores_used"@, r.client_cpu_cores_used@, key);
    let m = json::put(m, "client_cpu_cores_used"@, r.client_cpu_cores_used@);
    lemma_put(m, "system_cpu_pct"@, r.system_cpu_pct@, key);
    let m = json::put(m, "system_cpu_pct"@, r.system_cpu_pct@);
    lemma_put(m, "client_saturated"@, JsonView::Bool(r.client_saturated), key);
    let m = json::put(m, "client_saturated"@, JsonView::Bool(r.client_saturated));
    lemma_put(m, "saturation_reason"@, JsonView::Text(r.saturation_reason@), key);
    let m = json::put(m, "saturation_reason"@, JsonView::Text(r.saturation_reason@));
    lemma_put(m, "target_qps"@, r.target_qps@, key);
    let m = json::put(m, "target_qps"@, r.target_qps@);
    lemma_put(m, "offered_queries"@, json::count_view(r.offered_queries), key);
    let m = json::put(m, "offered_queries"@, json::count_view(r.offered_queries));
    lemma_put(m, "dropped_queries"@, json::count_view(r.dropped_queries), key);
    let m = json::put(m, "dropped_queries"@, json::count_view(r.dropped_queries));
    lemma_put(m, "late_queries"@, json::count_view(r.late_queries), key);
    let m = json::put(m, "late_queries"@, json::count_view(r.late_queries));
    lemma_put(m, "schedule_delay_p50_time"@, r.schedule_delay_p50_time@, key);
    let m = json::put(m, "schedule_delay_p50_time"@, r.schedule_delay_p50_time@);
    lemma_put(m, "schedule_delay_p95_time"@, r.schedule_delay_p95_time@, key);
    let m = json::put(m, "schedule_delay_p95_time"@, r.schedule_delay_p95_time@);
    lemma_put(m, "schedule_delay_p99_time"@, r.schedule_delay_p99_time@, key);
    let m = json::put(m, "schedule_delay_p99_time"@, r.schedule_delay_p99_time@);
    lemma_put(m, "end_to_end_p50_time"@, r.end_to_end_p50_time@, key);
    let m = json::put(m, "end_to_end_p50_time"@, r.end_to_end_p50_time@);
    lemma_put(m, "end_to_end_p95_time"@, r.end_to_end_p95_time@, key);
    let m = json::put(m, "end_to_end_p95_time"@, r.end_to_end_p95_time@);
    lemma_put(m, "end_to_end_p99_time"@, r.end_to_end_p99_time@, key);
    let m = json::put(m, "end_to_end_p99_time"@, r.end_to_end_p99_time@);
    lemma_put(m, "mean_precision_at_returned"@, r.mean_precision_at_returned@, key);
    let m = json::put(m, "mean_precision_at_returned"@, r.mean_precision_at_returned@);
    lemma_put(m, "mean_recall"@, r.mean_recall@, key);
    let m = json::put(m, "mean_recall"@, r.mean_recall@);
    lemma_put(m, "recall_p10"@, r.recall_p10@, key);
    let m = json::put(m, "recall_p10"@, r.recall_p10@);
    lemma_put(m, "mean_mrr"@, r.mean_mrr@, key);
    let m = json::put(m, "mean_mrr"@, r.mean_mrr@);
    lemma_put(m, "mean_ndcg"@, r.mean_ndcg@, key);
    let m = json::put(m, "mean_ndcg"@, r.mean_ndcg@);
    lemma_put(m, "std_time"@, r.std_time@, key);
    let m = json::put(m, "std_time"@, r.std_time@);
    lemma_put(m, "min_time"@, r.min_time@, key);
    let m = json::put(m, "min_time"@, r.min_time@);
    lemma_put(m, "max_time"@, r.max_time@, key);
    let m = json::put(m, "max_time"@, r.max_time@);
    lemma_put(m, "rps"@, r.rps@, key);
    let m = json::put(m, "rps"@, r.rps@);
    lemma_put(m, "p50_time"@, r.p50_time@, key);
    let m = json::put(m, "p50_time"@, r.p50_time@);
    lemma_put(m, "p95_time"@, r.p95_time@, key);
    let m = json::put(m, "p95_time"@, r.p95_time@);
    lemma_put(m, "p99_time"@, r.p99_time@, key);
    let m = json::put(m, "p99_time"@, r.p99_time@);
    lemma_put(m, "latency_hdr"@, r.latency_hdr@, key);
    let m = json::put(m, "latency_hdr"@, r.latency_hdr@);
    lemma_put(m, "precision_at_returned_dist"@, r.precision_at_returned_dist@, key);
    let m = json::put(m, "precision_at_returned_dist"@, r.precision_at_returned_dist@);
    lemma_put(m, "recall_dist"@, r.recall_dist@, key);
    let m = json::put(m, "recall_dist"@, r.recall_dist@);
    lemma_put(m, "mrr_dist"@, r.mrr_dist@, key);
    let m = json::put(m, "mrr_dist"@, r.mrr_dist@);
    lemma_put(m, "ndcg_dist"@, r.ndcg_dist@, key);
    let m = json::put(m, "ndcg_dist"@, r.ndcg_dist@);
}

/// A member that may be missing does not bring a key.
proof fn lemma_put_some(m: Seq<(Seq<char>, JsonView)>, k: Seq<char>, v: Option<JsonView>, key: Seq<char>)
    requires
        k != key,
        json::member_of(m, key) is None,
    ensures
        json::member_of(put_some(m, k, v), key) is None,
{
    if let Some(j) = v {
        lemma_put(m, k, j, key);
    }
}

/// What is added to the measurements does not have it either.
proof fn lemma_raw_and_updates(m: Seq<(Seq<char>, JsonView)>, r: SearchResults, dump: bool)
    requires
        json::member_of(m, "mean_precisions"@) is None,
    ensures
        json::member_of(with_updates(with_raw(m, r, dump), r, dump), "mean_precisions"@) is None,
{
    let key = "mean_precisions"@;
    lemma_no_other_name();
    let n = with_raw(m, r, dump);
    if dump {
        lemma_put(m, "precisions_at_returned"@, r.precisions_at_returned@, key);
        let m = json::put(m, "precisions_at_returned"@, r.precisions_at_returned@);
        lemma_put(m, "recalls"@, r.recalls@, key);
        let m = json::put(m, "recalls"@, r.recalls@);
        lemma_put(m, "mrrs"@, r.mrrs@, key);
        let m = json::put(m, "mrrs"@, r.mrrs@);
        lemma_put(m, "ndcgs"@, r.ndcgs@, key);
        let m = json::put(m, "ndcgs"@, r.ndcgs@);
        lemma_put(m, "latencies"@, r.latencies@, key);
        let m = json::put(m, "latencies"@, r.latencies@);
    }
    if let Some(ratio) = r.update_search_ratio {
        let m = n;
        lemma_put(m, "update_search_ratio"@, JsonView::Text(ratio@), key);
        let m = json::put(m, "update_search_ratio"@, JsonView::Text(ratio@));
        lemma_put_some(m, "update_count"@, some_count(r.update_count), key);
        let m = put_some(m, "update_count"@, some_count(r.update_count));
        lemma_put_some(m, "update_rps"@, some_view(r.update_rps), key);
        let m = put_some(m, "update_rps"@, some_view(r.update_rps));
        lemma_put_some(m, "update_attribution"@, some_text(r.update_attribution), key);
        let m = put_some(m, "update_attribution"@, some_text(r.update_attribution));
        lemma_put_some(m, "update_failures"@, some_count(r.update_failures), key);
        let m = put_some(m, "update_failures"@, some_count(r.update_failures));
        lemma_put_some(m, "update_attribution_detail"@, some_text(r.update_attribution_detail), key);
        let m = put_some(m, "update_attribution_detail"@, some_text(r.update_attribution_detail));
        lemma_put_some(m, "update_unattributed"@, some_count(r.update_unattributed), key);
        let m = put_some(m, "update_unattributed"@, some_count(r.update_unattributed));
        lemma_put_some(m, "update_mean_time"@, some_view(r.update_mean_time), key);
        let m = put_some(m, "update_mean_time"@, some_view(r.update_mean_time));
        lemma_put_some(m, "update_p50_time"@, some_view(r.update_p50_time), key);
        let m = put_some(m, "update_p50_time"@, some_view(r.update_p50_time));
        lemma_put_some(m, "update_p95_time"@, some_view(r.update_p95_time), key);
        let m = put_some(m, "update_p95_time"@, some_view(r.update_p95_time));
        lemma_put_some(m, "update_p99_time"@, some_view(r.update_p99_time), key);
        let m = put_some(m, "update_p99_time"@, some_view(r.update_p99_time));
        if let Some(raw) = r.update_latencies {
            lemma_put(m, "update_latency_hdr"@, r.update_latency_hdr@, key);
            let m = json::put(m, "update_latency_hdr"@, r.update_latency_hdr@);
            lemma_put(m, "update_latencies"@, raw@, key);
        }
    }
}

/// The schema does not have it.
proof fn lemma_schema(stats: Option<GroundTruthStats>, numbers: ProfileNumbers)
    ensures
        json::member_of(schema_members(stats, numbers), "mean_precisions"@) is None,
{
    let key = "mean_precisions"@;
    lemma_no_other_name();
    let m = json::no_members();
    lemma_put(m, "version"@, json::count_view(2), key);
    let m = json::put(m, "version"@, json::count_view(2));
    let v = JsonView::Text("hits / |deduped results kept (<= top)|, where hits = |results ∩ valid, deduped ground-truth ids in expected[:top]|. Renamed from `mean_precisions` in schema version 2 (#217): that key name is taken by a DIFFERENT formula upstream. -1.0 is the filter-only sentinel (no vector search was run)."@);
    lemma_put(m, "mean_precision_at_returned"@, v, key);
    let m = json::put(m, "mean_precision_at_returned"@, v);
    let v = JsonView::Text("hits / |valid, deduped ground-truth ids in expected[:top]|. The denominator is the ground truth that actually exists, so a query with 3 true neighbours can reach 1.0."@);
    lemma_put(m, "mean_recall"@, v, key);
    let m = json::put(m, "mean_recall"@, v);
    let v = JsonView::Text("10th percentile of the per-query recall defined above."@);
    lemma_put(m, "recall_p10"@, v, key);
    let m = json::put(m, "recall_p10"@, v);
    let v = JsonView::Text("len(ids & expected[:top]) / top — recall@top. This is what upstream qdrant/vector-db-benchmark emits under the key `mean_precisions`. We deliberately do NOT emit that key name. It equals our `mean_recall` only when every ground-truth row has at least `top` valid ids (see `ground_truth` below), and it equals our `mean_precision_at_returned` only when the engine returns a full page of `top` results."@);
    lemma_put(m, "upstream_qdrant_mean_precisions"@, v, key);
    let m = json::put(m, "upstream_qdrant_mean_precisions"@, v);
    let v = if comparable(stats) {
        JsonView::Text("mean_recall"@)
    } else {
        JsonView::Null
    };
    lemma_put(m, "comparable_to_upstream_mean_precisions"@, v, key);
    let m = json::put(m, "comparable_to_upstream_mean_precisions"@, v);
    if let Some(s) = stats {
        let v = s.json(numbers.mean_width@, numbers.ceiling@);
        lemma_put(m, "ground_truth"@, v, key);
        let m = json::put(m, "ground_truth"@, v);
        let note = JsonView::Text(comparability_note(s.queries_below_top as nat, s.queries as nat, s.top as nat, numbers.ceiling_shown@));
        lemma_put(m, "comparability_note"@, note, key);
    }
}

/// The keys that are written are other texts.
proof fn lemma_no_other_name()
    ensures
        "total_time"@ != "mean_precisions"@,
        "mean_time"@ != "mean_precisions"@,
        "requested_queries"@ != "mean_precisions"@,
        "succeeded_queries"@ != "mean_precisions"@,
        "failed_queries"@ != "mean_precisions"@,
        "parallel"@ != "mean_precisions"@,
        "available_cores"@ != "mean_precisions"@,
        "oversubscribed"@ != "mean_precisions"@,
        "client_cpu_cores_used"@ != "mean_precisions"@,
        "system_cpu_pct"@ != "mean_precisions"@,
        "client_saturated"@ != "mean_precisions"@,
        "saturation_reason"@ != "mean_precisions"@,
        "target_qps"@ != "mean_precisions"@,
        "offered_queries"@ != "mean_precisions"@,
        "dropped_queries"@ != "mean_precisions"@,
        "late_queries"@ != "mean_precisions"@,
        "schedule_delay_p50_time"@ != "mean_precisions"@,
        "schedule_delay_p95_time"@ != "mean_precisions"@,
        "schedule_delay_p99_time"@ != "mean_precisions"@,
        "end_to_end_p50_time"@ != "mean_precisions"@,
        "end_to_end_p95_time"@ != "mean_precisions"@,
        "end_to_end_p99_time"@ != "mean_precisions"@,
        "mean_precision_at_returned"@ != "mean_precisions"@,
        "mean_recall"@ != "mean_precisions"@,
        "recall_p10"@ != "mean_precisions"@,
        "mean_mrr"@ != "mean_precisions"@,
        "mean_ndcg"@ != "mean_precisions"@,
        "std_time"@ != "mean_precisions"@,
        "min_time"@ != "mean_precisions"@,
        "max_time"@ != "mean_precisions"@,
        "rps"@ != "mean_precisions"@,
        "p50_time"@ != "mean_precisions"@,
        "p95_time"@ != "mean_precisions"@,
        "p99_time"@ != "mean_precisions"@,
        "latency_hdr"@ != "mean_precisions"@,
        "precision_at_returned_dist"@ != "mean_precisions"@,
        "recall_dist"@ != "mean_precisions"@,
        "mrr_dist"@ != "mean_precisions"@,
        "ndcg_dist"@ != "mean_precisions"@,
        "precisions_at_returned"@ != "mean_precisions"@,
        "recalls"@ != "mean_precisions"@,
        "mrrs"@ != "mean_precisions"@,
        "ndcgs"@ != "mean_precisions"@,
        "latencies"@ != "mean_precisions"@,
        "update_search_ratio"@ != "mean_precisions"@,
        "update_count"@ != "mean_precisions"@,
        "update_rps"@ != "mean_precisions"@,
        "update_attribution"@ != "mean_precisions"@,
        "update_failures"@ != "mean_precisions"@,
        "update_attribution_detail"@ != "mean_precisions"@,
        "update_unattributed"@ != "mean_precisions"@,
        "update_mean_time"@ != "mean_precisions"@,
        "update_p50_time"@ != "mean_precisions"@,
        "update_p95_time"@ != "mean_precisions"@,
        "update_p99_time"@ != "mean_precisions"@,
        "update_latency_hdr"@ != "mean_precisions"@,
        "update_latencies"@ != "mean_precisions"@,
        "version"@ != "mean_precisions"@,
        "upstream_qdrant_mean_precisions"@ != "mean_precisions"@,
        "comparable_to_upstream_mean_precisions"@ != "mean_precisions"@,
        "ground_truth"@ != "mean_precisions"@,
        "comparability_note"@ != "mean_precisions"@,
{
    reveal_strlit("mean_precisions");
    reveal_strlit("total_time");
    reveal_strlit("mean_time");
    reveal_strlit("requested_queries");
    reveal_strlit("succeeded_queries");
    reveal_strlit("failed_queries");
    reveal_strlit("parallel");
    reveal_strlit("available_cores");
    reveal_strlit("oversubscribed");
    reveal_strlit("client_cpu_cores_used");
    reveal_strlit("system_cpu_pct");
    reveal_strlit("client_saturated");
    reveal_strlit("saturation_reason");
    reveal_strlit("target_qps");
    reveal_strlit("offered_queries");
    reveal_strlit("dropped_queries");
    reveal_strlit("late_queries");
    reveal_strlit("schedule_delay_p50_time");
    reveal_strlit("schedule_delay_p95_time");
    reveal_strlit("schedule_delay_p99_time");
    reveal_strlit("end_to_end_p50_time");
    reveal_strlit("end_to_end_p95_time");
    reveal_strlit("end_to_end_p99_time");
    reveal_strlit("mean_precision_at_returned");
    reveal_strlit("mean_recall");
    reveal_strlit("recall_p10");
    reveal_strlit("mean_mrr");
    reveal_strlit("mean_ndcg");
    reveal_strlit("std_time");
    reveal_strlit("min_time");
    reveal_strlit("max_time");
    reveal_strlit("rps");
    reveal_strlit("p50_time");
    reveal_strlit("p95_time");
    reveal_strlit("p99_time");
    reveal_strlit("latency_hdr");
    reveal_strlit("precision_at_returned_dist");
    reveal_strlit("recall_dist");
    reveal_strlit("mrr_dist");
    reveal_strlit("ndcg_dist");
    reveal_strlit("precisions_at_returned");
    reveal_strlit("recalls");
    reveal_strlit("mrrs");
    reveal_strlit("ndcgs");
    reveal_strlit("latencies");
    reveal_strlit("update_search_ratio");
    reveal_strlit("update_count");
    reveal_strlit("update_rps");
    reveal_strlit("update_attribution");
    reveal_strlit("update_failures");
    reveal_strlit("update_attribution_detail");
    reveal_strlit("update_unattributed");
    reveal_strlit("update_mean_time");
    reveal_strlit("update_p50_time");
    reveal_strlit("update_p95_time");
    reveal_strlit("update_p99_time");
    reveal_strlit("update_latency_hdr");
    reveal_strlit("update_latencies");
    reveal_strlit("version");
    reveal_strlit("upstream_qdrant_mean_precisions");
    reveal_strlit("comparable_to_upstream_mean_precisions");
    reveal_strlit("ground_truth");
    reveal_strlit("comparability_note");
    assert("total_time"@.len() == 10);
    assert("mean_time"@.len() == 9);
    assert("requested_queries"@.len() == 17);
    assert("succeeded_queries"@.len() == 17);
    assert("failed_queries"@.len() == 14);
    assert("parallel"@.len() == 8);
    assert("available_cores"@[0] != "mean_precisions"@[0]);
    assert("oversubscribed"@.len() == 14);
    assert("client_cpu_cores_used"@.len() == 21);
    assert("system_cpu_pct"@.len() == 14);
    assert("client_saturated"@.len() == 16);
    assert("saturation_reason"@.len() == 17);
    assert("target_qps"@.len() == 10);
    assert("offered_queries"@[0] != "mean_precisions"@[0]);
    assert("dropped_queries"@[0] != "mean_precisions"@[0]);
    assert("late_queries"@.len() == 12);
    assert("schedule_delay_p50_time"@.len() == 23);
    assert("schedule_delay_p95_time"@.len() == 23);
    assert("schedule_delay_p99_time"@.len() == 23);
    assert("end_to_end_p50_time"@.len() == 19);
    assert("end_to_end_p95_time"@.len() == 19);
    assert("end_to_end_p99_time"@.len() == 19);
    assert("mean_precision_at_returned"@.len() == 26);
    assert("mean_recall"@.len() == 11);
    assert("recall_p10"@.len() == 10);
    assert("mean_mrr"@.len() == 8);
    assert("mean_ndcg"@.len() == 9);
    assert("std_time"@.len() == 8);
    assert("min_time"@.len() == 8);
    assert("max_time"@.len() == 8);
    assert("rps"@.len() == 3);
    assert("p50_time"@.len() == 8);
    assert("p95_time"@.len() == 8);
    assert("p99_time"@.len() == 8);
    assert("latency_hdr"@.len() == 11);
    assert("precision_at_returned_dist"@.len() == 26);
    assert("recall_dist"@.len() == 11);
    assert("mrr_dist"@.len() == 8);
    assert("ndcg_dist"@.len() == 9);
    assert("precisions_at_returned"@.len() == 22);
    assert("recalls"@.len() == 7);
    assert("mrrs"@.len() == 4);
    assert("ndcgs"@.len() == 5);
    assert("latencies"@.len() == 9);
    assert("update_search_ratio"@.len() == 19);
    assert("update_count"@.len() == 12);
    assert("update_rps"@.len() == 10);
    assert("update_attribution"@.len() == 18);
    assert("update_failures"@[0] != "mean_precisions"@[0]);
    assert("update_attribution_detail"@.len() == 25);
    assert("update_unattributed"@.len() == 19);
    assert("update_mean_time"@.len() == 16);
    assert("update_p50_time"@[0] != "mean_precisions"@[0]);
    assert("update_p95_time"@[0] != "mean_precisions"@[0]);
    assert("update_p99_time"@[0] != "mean_precisions"@[0]);
    assert("update_latency_hdr"@.len() == 18);
    assert("update_latencies"@.len() == 16);
    assert("version"@.len() == 7);
    assert("upstream_qdrant_mean_precisions"@.len() == 31);
    assert("comparable_to_upstream_mean_precisions"@.len() == 38);
    assert("ground_truth"@.len() == 12);
    assert("comparability_note"@.len() == 18);
}

/// The record of an experiment that was refused.
pub open spec fn rejection(engine: Seq<char>, dataset: Seq<char>, reason: Seq<char>) -> JsonView {
    let m = json::put(json::no_members(), "engine"@, JsonView::Text(engine));
    let m = json::put(m, "dataset"@, JsonView::Text(dataset));
    JsonView::Object(json::put(m, "reason"@, JsonView::Text(reason)))
}

/// The record of an experiment that was refused, for the summary: a sweep that goes on without it is not
/// taken for a complete one.
pub fn record_rejected_experiment(engine: &str, dataset: &str, reason: &str) -> (r: Json)
    ensures
        r@ == rejection(engine@, dataset@, reason@),
{
    broadcast use json::lemma_object_view;

    let mut members: Vec<(String, Json)> = new_members();
    put_member(&mut members, "engine", text_value(engine));
    put_member(&mut members, "dataset", text_value(dataset));
    put_member(&mut members, "reason", text_value(reason));
    Json::Object(members)
}

} // verus!
