//! What the summary of an experiment says, read back by the names that it is written under.
use vstd::prelude::*;

use crate::experiment::results;
use crate::json::{self, JsonView};
use crate::summary::{self, CurveView, RoundedNumbers, SearchEntry};

verus! {

/// The names of what a summary says of a search are different.
proof fn lemma_entry_names()
    ensures
        "search_id"@.len() == 9,
        "ef"@.len() == 2,
        "parallel"@.len() == 8,
        "mean_precision_at_returned"@.len() == 26,
        "mean_recall"@.len() == 11,
        "recall_p10"@.len() == 10,
        "mean_mrr"@.len() == 8,
        "mean_ndcg"@.len() == 9,
        "rps"@.len() == 3,
        "mean_time"@.len() == 9,
        "p50_time"@.len() == 8,
        "p95_time"@.len() == 8,
        "p99_time"@.len() == 8,
        "client_cpu_cores_used"@.len() == 21,
        "client_saturated"@.len() == 16,
        "saturation_reason"@.len() == 17,
        "oversubscribed"@.len() == 14,
        "available_cores"@.len() == 15,
        "search_id"@ != "mean_ndcg"@,
        "search_id"@ != "mean_time"@,
        "parallel"@ != "mean_mrr"@,
        "parallel"@ != "p50_time"@,
        "parallel"@ != "p95_time"@,
        "parallel"@ != "p99_time"@,
        "mean_mrr"@ != "p50_time"@,
        "mean_mrr"@ != "p95_time"@,
        "mean_mrr"@ != "p99_time"@,
        "mean_ndcg"@ != "mean_time"@,
        "p50_time"@ != "p95_time"@,
        "p50_time"@ != "p99_time"@,
        "p95_time"@ != "p99_time"@,
{
    reveal_strlit("search_id");
    reveal_strlit("ef");
    reveal_strlit("parallel");
    reveal_strlit("mean_precision_at_returned");
    reveal_strlit("mean_recall");
    reveal_strlit("recall_p10");
    reveal_strlit("mean_mrr");
    reveal_strlit("mean_ndcg");
    reveal_strlit("rps");
    reveal_strlit("mean_time");
    reveal_strlit("p50_time");
    reveal_strlit("p95_time");
    reveal_strlit("p99_time");
    reveal_strlit("client_cpu_cores_used");
    reveal_strlit("client_saturated");
    reveal_strlit("saturation_reason");
    reveal_strlit("oversubscribed");
    reveal_strlit("available_cores");
    assert("search_id"@[0] != "mean_ndcg"@[0]);
    assert("search_id"@[0] != "mean_time"@[0]);
    assert("parallel"@[0] != "mean_mrr"@[0]);
    assert("parallel"@[1] != "p50_time"@[1]);
    assert("parallel"@[1] != "p95_time"@[1]);
    assert("parallel"@[1] != "p99_time"@[1]);
    assert("mean_mrr"@[0] != "p50_time"@[0]);
    assert("mean_mrr"@[0] != "p95_time"@[0]);
    assert("mean_mrr"@[0] != "p99_time"@[0]);
    assert("mean_ndcg"@[5] != "mean_time"@[5]);
    assert("p50_time"@[1] != "p95_time"@[1]);
    assert("p50_time"@[1] != "p99_time"@[1]);
    assert("p95_time"@[2] != "p99_time"@[2]);
}

/// What a summary says of a search is what was measured of it, each under its own name.
pub proof fn searches_are_summed_up_as_measured(e: SearchEntry)
    ensures
        summary::entry_document(e).member("search_id"@) == Some(json::count_view(e.search_id as u64)),
        summary::entry_document(e).member("ef"@) == Some(JsonView::Text(e.ef@)),
        summary::entry_document(e).member("parallel"@) == Some(json::int_view(e.parallel)),
        summary::entry_document(e).member("mean_precision_at_returned"@) == Some(e.results.mean_precision_at_returned@),
        summary::entry_document(e).member("mean_recall"@) == Some(e.results.mean_recall@),
        summary::entry_document(e).member("recall_p10"@) == Some(e.results.recall_p10@),
        summary::entry_document(e).member("mean_mrr"@) == Some(e.results.mean_mrr@),
        summary::entry_document(e).member("mean_ndcg"@) == Some(e.results.mean_ndcg@),
        summary::entry_document(e).member("rps"@) == Some(e.results.rps@),
        summary::entry_document(e).member("mean_time"@) == Some(e.results.mean_time@),
        summary::entry_document(e).member("p50_time"@) == Some(e.results.p50_time@),
        summary::entry_document(e).member("p95_time"@) == Some(e.results.p95_time@),
        summary::entry_document(e).member("p99_time"@) == Some(e.results.p99_time@),
        summary::entry_document(e).member("client_cpu_cores_used"@) == Some(e.results.client_cpu_cores_used@),
        summary::entry_document(e).member("client_saturated"@) == Some(JsonView::Bool(e.results.client_saturated)),
        summary::entry_document(e).member("saturation_reason"@) == Some(JsonView::Text(e.results.saturation_reason@)),
        summary::entry_document(e).member("oversubscribed"@) == Some(JsonView::Bool(e.results.oversubscribed)),
        summary::entry_document(e).member("available_cores"@) == Some(json::count_view(e.results.available_cores)),
{
    broadcast use json::put_then_member;

    lemma_entry_names();
}

/// The names of what a summary says of a precision and of a point of a curve are different.
proof fn lemma_point_names()
    ensures
        "QPS"@.len() == 3,
        "P50 (ms)"@.len() == 8,
        "P95 (ms)"@.len() == 8,
        "recall"@.len() == 6,
        "mrr"@.len() == 3,
        "ndcg"@.len() == 4,
        "parallel"@.len() == 8,
        "qps"@.len() == 3,
        "p50_ms"@.len() == 6,
        "p95_ms"@.len() == 6,
        "p99_ms"@.len() == 6,
        "client_saturated"@.len() == 16,
        "QPS"@ != "mrr"@,
        "QPS"@ != "qps"@,
        "P50 (ms)"@ != "P95 (ms)"@,
        "P50 (ms)"@ != "parallel"@,
        "P95 (ms)"@ != "parallel"@,
        "recall"@ != "p50_ms"@,
        "recall"@ != "p95_ms"@,
        "recall"@ != "p99_ms"@,
        "mrr"@ != "qps"@,
        "p50_ms"@ != "p95_ms"@,
        "p50_ms"@ != "p99_ms"@,
        "p95_ms"@ != "p99_ms"@,
{
    reveal_strlit("QPS");
    reveal_strlit("P50 (ms)");
    reveal_strlit("P95 (ms)");
    reveal_strlit("recall");
    reveal_strlit("mrr");
    reveal_strlit("ndcg");
    reveal_strlit("parallel");
    reveal_strlit("qps");
    reveal_strlit("p50_ms");
    reveal_strlit("p95_ms");
    reveal_strlit("p99_ms");
    reveal_strlit("client_saturated");
    assert("QPS"@[0] != "mrr"@[0]);
    assert("QPS"@[0] != "qps"@[0]);
    assert("P50 (ms)"@[1] != "P95 (ms)"@[1]);
    assert("P50 (ms)"@[0] != "parallel"@[0]);
    assert("P95 (ms)"@[0] != "parallel"@[0]);
    assert("recall"@[0] != "p50_ms"@[0]);
    assert("recall"@[0] != "p95_ms"@[0]);
    assert("recall"@[0] != "p99_ms"@[0]);
    assert("mrr"@[0] != "qps"@[0]);
    assert("p50_ms"@[1] != "p95_ms"@[1]);
    assert("p50_ms"@[1] != "p99_ms"@[1]);
    assert("p95_ms"@[2] != "p99_ms"@[2]);
}

/// What a summary says of a precision, and of a point of a curve, are the rounded numbers of the search that
/// stands for it, each under its own name.
pub proof fn numbers_are_summed_up_under_their_names(e: SearchEntry, n: RoundedNumbers)
    ensures
        summary::precision_document(n).member("QPS"@) == Some(n.qps@),
        summary::precision_document(n).member("P50 (ms)"@) == Some(n.p50_ms@),
        summary::precision_document(n).member("P95 (ms)"@) == Some(n.p95_ms@),
        summary::precision_document(n).member("recall"@) == Some(n.recall@),
        summary::precision_document(n).member("mrr"@) == Some(n.mrr@),
        summary::precision_document(n).member("ndcg"@) == Some(n.ndcg@),
        summary::point_document(e, n).member("parallel"@) == Some(json::int_view(e.parallel)),
        summary::point_document(e, n).member("qps"@) == Some(n.qps@),
        summary::point_document(e, n).member("p50_ms"@) == Some(n.p50_ms@),
        summary::point_document(e, n).member("p95_ms"@) == Some(n.p95_ms@),
        summary::point_document(e, n).member("p99_ms"@) == Some(n.p99_ms@),
        summary::point_document(e, n).member("recall"@) == Some(n.recall@),
        summary::point_document(e, n).member("client_saturated"@) == Some(JsonView::Bool(e.results.client_saturated)),
{
    broadcast use json::put_then_member;

    lemma_point_names();
}

/// The names of the parts of a summary and of a curve are different.
proof fn lemma_summary_names()
    ensures
        "ef"@.len() == 2,
        "max_qps"@.len() == 7,
        "max_qps_parallel"@.len() == 16,
        "knee_parallel"@.len() == 13,
        "points"@.len() == 6,
        "engine"@.len() == 6,
        "dataset"@.len() == 7,
        "search_results"@.len() == 14,
        "precision_summary"@.len() == 17,
        "concurrency_curve"@.len() == 17,
        "upload"@.len() == 6,
        "max_qps"@ != "dataset"@,
        "points"@ != "engine"@,
        "points"@ != "upload"@,
        "engine"@ != "upload"@,
        "precision_summary"@ != "concurrency_curve"@,
{
    reveal_strlit("ef");
    reveal_strlit("max_qps");
    reveal_strlit("max_qps_parallel");
    reveal_strlit("knee_parallel");
    reveal_strlit("points");
    reveal_strlit("engine");
    reveal_strlit("dataset");
    reveal_strlit("search_results");
    reveal_strlit("precision_summary");
    reveal_strlit("concurrency_curve");
    reveal_strlit("upload");
    assert("max_qps"@[0] != "dataset"@[0]);
    assert("points"@[0] != "engine"@[0]);
    assert("points"@[0] != "upload"@[0]);
    assert("engine"@[0] != "upload"@[0]);
    assert("precision_summary"@[0] != "concurrency_curve"@[0]);
}

/// A curve in a summary has the highest rate of the curve with its number of clients, its knee where it has
/// one, and its points in order.
pub proof fn curves_are_summed_up(
    entries: Seq<SearchEntry>,
    numbers: Seq<RoundedNumbers>,
    c: CurveView,
    i: int,
)
    requires
        0 <= i < c.points.len(),
    ensures
        ({
            let document = summary::curve_document(entries, numbers, c);
            &&& document.member("ef"@) == Some(JsonView::Text(c.ef))
            &&& document.member("max_qps"@) == Some(
                match c.peak {
                    Some(b) => numbers[b].qps@,
                    None => JsonView::Null,
                },
            )
            &&& document.member("max_qps_parallel"@) matches Some(most)
            &&& most.as_int() == Some(c.max_qps_parallel as int)
            &&& document.member("knee_parallel"@) matches Some(knee)
            &&& c.knee_parallel matches Some(k) ==> knee.as_int() == Some(k as int)
            &&& c.knee_parallel is None ==> knee is Null
            &&& document.member("points"@) matches Some(JsonView::Array(points))
            &&& points.len() == c.points.len()
            &&& points[i].member("parallel"@) matches Some(clients)
            &&& clients.as_int() == Some(entries[c.points[i]].parallel as int)
            &&& points[i].member("qps"@) == Some(numbers[c.points[i]].qps@)
        }),
{
    broadcast use json::put_then_member;

    lemma_summary_names();
    numbers_are_summed_up_under_their_names(entries[c.points[i]], numbers[c.points[i]]);
}

/// The members by precision, each once.
proof fn lemma_precisions(
    keys: Seq<Seq<char>>,
    numbers: Seq<RoundedNumbers>,
    best: Seq<int>,
    n: int,
    j: int,
)
    requires
        0 <= j < n <= best.len(),
        forall|k: int, l: int|
            0 <= k < l < best.len() ==> keys[#[trigger] best[k]] != keys[#[trigger] best[l]],
    ensures
        json::member_of(summary::precision_members(keys, numbers, best, n), keys[best[j]]) == Some(
            summary::precision_document(numbers[best[j]]),
        ),
    decreases n,
{
    broadcast use json::put_then_member;

    if j < n - 1 {
        lemma_precisions(keys, numbers, best, n - 1, j);
        assert(keys[best[j]] != keys[best[n - 1]]);
    }
}

/// A summary names the engine and the dataset and lists every search. Under the precision that a search
/// reached it has the numbers of the best search of that precision.
pub proof fn summaries_show_the_best_of_every_precision(
    engine: Seq<char>,
    dataset: Seq<char>,
    entries: Seq<SearchEntry>,
    keys: Seq<Seq<char>>,
    numbers: Seq<RoundedNumbers>,
    upload: Option<JsonView>,
    i: int,
) -> (b: int)
    requires
        keys.len() == entries.len(),
        summary::precisions_compare(entries, keys),
        0 <= i < entries.len(),
    ensures
        ({
            let document = summary::summary_document(engine, dataset, entries, keys, numbers, upload);
            &&& document.member("engine"@) == Some(JsonView::Text(engine))
            &&& document.member("dataset"@) == Some(JsonView::Text(dataset))
            &&& document.member("upload"@) == upload
            &&& document.member("search_results"@) matches Some(JsonView::Array(searches))
            &&& searches.len() == entries.len()
            &&& searches[i] == summary::entry_document(entries[i])
            &&& document.member("concurrency_curve"@) matches Some(JsonView::Array(curves))
            &&& curves.len() == summary::all_curves(entries).len()
            &&& forall|k: int|
                0 <= k < curves.len() ==> #[trigger] curves[k] == summary::curve_document(
                    entries,
                    numbers,
                    summary::all_curves(entries)[k],
                )
            &&& document.member("precision_summary"@) matches Some(precisions)
            &&& 0 <= b < entries.len()
            &&& keys[b] == keys[i]
            &&& summary::precision_summary(entries, keys).contains(b)
            &&& precisions.member(keys[i]) == Some(summary::precision_document(numbers[b]))
        }),
{
    broadcast use json::put_then_member;

    lemma_summary_names();
    let best = summary::precision_summary(entries, keys);
    let j = summary::every_precision_is_shown(entries, keys, i);
    assert forall|k: int, l: int| 0 <= k < l < best.len() implies keys[#[trigger] best[k]] != keys[
        #[trigger] best[l]] by {
        summary::precisions_are_shown_once(entries, keys, k, l);
    }
    lemma_precisions(keys, numbers, best, best.len() as int, j);
    summary::the_best_search_of_a_precision_is_shown(entries, keys, i, j);
    if let Some(u) = upload {
        assert(results::put_some(json::no_members(), "upload"@, upload) == json::put(
            json::no_members(),
            "upload"@,
            u,
        ));
    }
    best[j]
}

} // verus!
