//! What the files of a run promise beside what was measured: what is comparable, how the files are named,
//! and what is warned of.
use vstd::prelude::*;

use crate::experiment::results::{self, ProfileNumbers, SearchResults};
use crate::ground_truth::{self, GroundTruthProfile, GroundTruthStats};
use crate::json::{self, JsonView};
use crate::metrics;
use crate::text;

verus! {

/// The names in the schema of a result file are different.
proof fn lemma_schema_names()
    ensures
        "version"@.len() == 7,
        "mean_precision_at_returned"@.len() == 26,
        "mean_recall"@.len() == 11,
        "recall_p10"@.len() == 10,
        "upstream_qdrant_mean_precisions"@.len() == 31,
        "comparable_to_upstream_mean_precisions"@.len() == 38,
        "ground_truth"@.len() == 12,
        "comparability_note"@.len() == 18,
{
    reveal_strlit("version");
    reveal_strlit("mean_precision_at_returned");
    reveal_strlit("mean_recall");
    reveal_strlit("recall_p10");
    reveal_strlit("upstream_qdrant_mean_precisions");
    reveal_strlit("comparable_to_upstream_mean_precisions");
    reveal_strlit("ground_truth");
    reveal_strlit("comparability_note");
}

/// Recall is called comparable where every row of the ground truth has as many valid identifiers as there
/// are results, and a file says otherwise where one has fewer.
pub proof fn recall_is_called_comparable_where_it_is(
    p: GroundTruthProfile,
    top: u64,
    stats: Option<GroundTruthStats>,
    numbers: ProfileNumbers,
    i: int,
)
    requires
        results::is_profile_at(Some(&p), top, stats),
        top > 0,
        0 <= i < p.rows().len(),
    ensures
        ({
            let schema = results::schema_members(stats, numbers);
            let said = json::member_of(schema, "comparable_to_upstream_mean_precisions"@);
            &&& metrics::truth(p.rows()[i]@, top as nat).len() < top ==> said == Some(JsonView::Null)
                && json::member_of(schema, "comparability_note"@) is Some
            &&& (forall|j: int|
                0 <= j < p.rows().len() ==> metrics::truth((#[trigger] p.rows()[j])@, top as nat).len()
                    == top) ==> said == Some(JsonView::Text("mean_recall"@)) && json::member_of(
                schema,
                "comparability_note"@,
            ) is None
            &&& json::member_of(schema, "ground_truth"@) == Some(
                stats->Some_0.json(numbers.mean_width@, numbers.ceiling@),
            )
        }),
{
    broadcast use json::put_then_member;

    lemma_schema_names();
    let rows = p.rows();
    let n = rows.len() as int;
    if metrics::truth(rows[i]@, top as nat).len() < top {
        if ground_truth::narrow_rows(rows, top as nat, n) == 0 {
            ground_truth::full_width_makes_recall_comparable(rows, top as nat, n, i);
        }
    }
    if forall|j: int|
        0 <= j < rows.len() ==> metrics::truth((#[trigger] rows[j])@, top as nat).len() == top {
        ground_truth::every_narrow_row_is_counted(rows, top as nat, n);
        let narrow = ground_truth::places_of_narrow_rows(rows, top as nat, n);
        assert forall|j: int| !(#[trigger] narrow.contains(j)) by {
            if 0 <= j < n {
                assert(metrics::truth(rows[j]@, top as nat).len() == top);
            }
        }
        assert(narrow =~= Set::empty());
    }
}

/// Without a ground truth nothing is called comparable.
pub proof fn nothing_is_comparable_without_ground_truth(numbers: ProfileNumbers)
    ensures
        json::member_of(
            results::schema_members(None, numbers),
            "comparable_to_upstream_mean_precisions"@,
        ) == Some(JsonView::Null),
        json::member_of(results::schema_members(None, numbers), "ground_truth"@) is None,
{
    broadcast use json::put_then_member;

    lemma_schema_names();
}

/// A ratio in a file name has no colon, and stays as it is but for colons.
pub proof fn file_names_have_no_colon(ratio: Seq<char>, i: int)
    requires
        0 <= i < ratio.len(),
    ensures
        results::file_safe(ratio).len() == ratio.len(),
        results::file_safe(ratio)[i] != ':',
        ratio[i] != ':' ==> results::file_safe(ratio)[i] == ratio[i],
        ratio[i] == ':' ==> results::file_safe(ratio)[i] == 'x',
    decreases ratio.len(),
{
    if ratio.len() > 1 {
        file_names_have_no_colon(
            ratio.drop_last(),
            if i < ratio.len() - 1 {
                i
            } else {
                0
            },
        );
    } else {
        assert(results::file_safe(ratio.drop_last()).len() == 0);
    }
}

/// Two texts between the same beginning and the same end are the same where the whole is.
proof fn lemma_between(a: Seq<char>, x: Seq<char>, y: Seq<char>, b: Seq<char>)
    requires
        a + x + b == a + y + b,
    ensures
        x == y,
{
    let s = a + x + b;
    let t = a + y + b;
    assert(s.len() == t.len());
    assert(s.subrange(a.len() as int, (a.len() + x.len()) as int) =~= x);
    assert(t.subrange(a.len() as int, (a.len() + y.len()) as int) =~= y);
}

/// The name of the file of a search, with the part that its place stands in between the others.
proof fn lemma_file_by_place(
    engine: Seq<char>,
    dataset: Seq<char>,
    id: nat,
    tag: Seq<char>,
    pid: nat,
    time: Seq<char>,
)
    ensures
        results::search_file(engine, dataset, id, tag, pid, time) == (engine + "-"@ + dataset
            + "-search-"@) + text::decimal(id) + (tag + ("-"@ + text::decimal(pid) + "-"@ + time
            + ".json"@)),
{
    assert(results::search_file(engine, dataset, id, tag, pid, time) =~= (engine + "-"@ + dataset
        + "-search-"@) + text::decimal(id) + (tag + ("-"@ + text::decimal(pid) + "-"@ + time
        + ".json"@)));
}

/// Searches of a run with different places have different files.
pub proof fn searches_have_files_of_their_own(
    engine: Seq<char>,
    dataset: Seq<char>,
    id: nat,
    other: nat,
    tag: Seq<char>,
    pid: nat,
    time: Seq<char>,
)
    requires
        id != other,
    ensures
        results::search_file(engine, dataset, id, tag, pid, time) != results::search_file(
            engine,
            dataset,
            other,
            tag,
            pid,
            time,
        ),
        engine.is_prefix_of(results::search_file(engine, dataset, id, tag, pid, time)),
{
    lemma_file_by_place(engine, dataset, id, tag, pid, time);
    lemma_file_by_place(engine, dataset, other, tag, pid, time);
    text::decimal_reads_back(id);
    text::decimal_reads_back(other);
    let front = engine + "-"@ + dataset + "-search-"@;
    let back = tag + ("-"@ + text::decimal(pid) + "-"@ + time + ".json"@);
    if front + text::decimal(id) + back == front + text::decimal(other) + back {
        lemma_between(front, text::decimal(id), text::decimal(other), back);
    }
}

/// The phases of a search have different files, and so has the search without updates.
pub proof fn phases_have_files_of_their_own(
    engine: Seq<char>,
    dataset: Seq<char>,
    id: nat,
    tag: Seq<char>,
    other: Seq<char>,
    pid: nat,
    time: Seq<char>,
)
    requires
        tag != other,
    ensures
        results::search_file(engine, dataset, id, tag, pid, time) != results::search_file(
            engine,
            dataset,
            id,
            other,
            pid,
            time,
        ),
        results::mixed_tag(Some(tag)) != results::mixed_tag(None),
{
    lemma_file_by_place(engine, dataset, id, tag, pid, time);
    lemma_file_by_place(engine, dataset, id, other, pid, time);
    let front = (engine + "-"@ + dataset + "-search-"@) + text::decimal(id);
    let back = "-"@ + text::decimal(pid) + "-"@ + time + ".json"@;
    assert(front + (tag + back) =~= front + tag + back);
    assert(front + (other + back) =~= front + other + back);
    if front + tag + back == front + other + back {
        lemma_between(front, tag, other, back);
    }
    reveal_strlit("-mixed-");
    reveal_strlit("");
    assert("-mixed-"@.len() == 7);
    assert(""@.len() == 0);
}

/// Whether a list has a text in which two others stand.
pub open spec fn has_line_with(lines: Seq<Seq<char>>, a: Seq<char>, b: Seq<char>) -> bool {
    exists|k: int|
        0 <= k < lines.len() && #[trigger] text::holds_text(lines[k], a) && text::holds_text(
            lines[k],
            b,
        )
}

/// A search that lost queries is warned of with how many it lost and how many were asked for; one that
/// dropped requests at a set rate with how many; one that the client held back with why. Nothing else is
/// warned of.
pub proof fn what_went_wrong_is_warned_of(r: SearchResults, cpu: Seq<char>)
    ensures
        r.failed_queries > 0 ==> has_line_with(
            results::result_warnings(r, cpu),
            text::decimal(r.failed_queries as nat),
            text::decimal(r.requested_queries as nat),
        ),
        r.target_qps@ !is Null && r.dropped_queries > 0 ==> has_line_with(
            results::result_warnings(r, cpu),
            text::decimal(r.dropped_queries as nat),
            Seq::empty(),
        ),
        r.client_saturated ==> has_line_with(
            results::result_warnings(r, cpu),
            r.saturation_reason@,
            cpu,
        ),
        results::result_warnings(r, cpu).len() == (if r.failed_queries > 0 {
            1int
        } else {
            0
        }) + (if r.target_qps@ !is Null && r.dropped_queries > 0 {
            1int
        } else {
            0
        }) + (if r.client_saturated {
            1int
        } else {
            0
        }),
{
    let lines = results::result_warnings(r, cpu);
    if r.failed_queries > 0 {
        let failed = text::decimal(r.failed_queries as nat);
        let requested = text::decimal(r.requested_queries as nat);
        let succeeded = text::decimal(r.num_queries as nat);
        let line = results::failed_queries_line(
            r.failed_queries as nat,
            r.requested_queries as nat,
            r.num_queries as nat,
        );
        let end =
            " succeeded); latency/recall/QPS above reflect the successful subset only"@;
        let begin = "\t⚠ WARNING: "@;
        assert(line =~= begin + failed + ("/"@ + requested + " queries FAILED (only "@ + succeeded
            + end));
        text::a_text_holds_its_parts(
            begin,
            failed,
            "/"@ + requested + " queries FAILED (only "@ + succeeded + end,
        );
        assert(line =~= (begin + failed + "/"@) + requested + (" queries FAILED (only "@ + succeeded
            + end));
        text::a_text_holds_its_parts(
            begin + failed + "/"@,
            requested,
            " queries FAILED (only "@ + succeeded + end,
        );
        assert(lines[0] == line);
        assert(text::holds_text(lines[0], failed));
    }
    if r.target_qps@ !is Null && r.dropped_queries > 0 {
        let dropped = text::decimal(r.dropped_queries as nat);
        let line = results::dropped_requests_line(r.dropped_queries as nat);
        let end =
            " offered requests were dropped after exceeding the dispatch-lateness limit"@;
        text::a_text_holds_its_parts("\t⚠ WARNING: "@, dropped, end);
        assert(line =~= Seq::empty() + Seq::<char>::empty() + line);
        text::a_text_holds_its_parts(Seq::empty(), Seq::empty(), line);
        let k: int = if r.failed_queries > 0 {
            1
        } else {
            0
        };
        assert(lines[k] == line);
        assert(text::holds_text(lines[k], dropped));
    }
    if r.client_saturated {
        let reason = r.saturation_reason@;
        let line = results::saturated_line(reason, cpu);
        let begin = "\t⚠ WARNING: CLIENT LIKELY SATURATED ("@;
        let middle = ") — client used "@;
        let end = "; QPS/latency may reflect the client, not the database"@;
        assert(line =~= begin + reason + (middle + cpu + end));
        text::a_text_holds_its_parts(begin, reason, middle + cpu + end);
        text::a_text_holds_its_parts(begin + reason + middle, cpu, end);
        let k = lines.len() - 1;
        assert(lines[k] == line);
        assert(text::holds_text(lines[k], reason));
    }
}

/// Every update that was sent is counted, whatever became of it.
pub proof fn every_update_is_counted(r: SearchResults, applied: u64, lost: u64, failed: u64)
    requires
        r.update_count == Some(applied),
        r.update_unattributed == Some(lost),
        r.update_failures == Some(failed),
    ensures
        results::dispatched(r) == applied + lost + failed,
{
}

/// The record of an experiment that was refused names the engine, the dataset and the reason.
pub proof fn refusals_are_recorded(engine: Seq<char>, dataset: Seq<char>, reason: Seq<char>)
    ensures
        results::rejection(engine, dataset, reason).member("engine"@) == Some(JsonView::Text(engine)),
        results::rejection(engine, dataset, reason).member("dataset"@) == Some(JsonView::Text(dataset)),
        results::rejection(engine, dataset, reason).member("reason"@) == Some(JsonView::Text(reason)),
{
    broadcast use json::put_then_member;

    reveal_strlit("engine");
    reveal_strlit("dataset");
    reveal_strlit("reason");
    assert("engine"@.len() == 6);
    assert("dataset"@.len() == 7);
    assert("reason"@.len() == 6);
    assert("engine"@[0] != "reason"@[0]);
}

} // verus!
