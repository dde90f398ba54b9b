//! What messages promise: the numbers and names in them are those of what they are about, each where the
//! words around it say.
use vstd::prelude::*;

use crate::experiment::agenda;
use crate::experiment::plan;
use crate::experiment::results::{self, SearchResults};
use crate::experiment::reuse::ReusePrecondition;
use crate::json::JsonView;
use crate::msmarco::crosscheck;
use crate::readers::compound_reader;
use crate::tables;
use crate::text;
use crate::weaviate::engine::{self, Transport};
use crate::weaviate::schema;
use crate::weaviate::search;

verus! {

/// Updates that hit no row are told as so many of those that were sent.
pub proof fn lost_updates_are_told_of_those_sent(r: SearchResults)
    ensures
        text::holds_text(
            results::attribution_message(r),
            text::decimal(results::or_zero(r.update_unattributed) as nat) + " of "@ + text::decimal(
                results::dispatched(r) as nat,
            ) + " dispatched updates"@,
        ),
        r.update_attribution_detail matches Some(d) ==> text::holds_text(
            results::attribution_message(r),
            d@,
        ),
{
    let lost = text::decimal(results::or_zero(r.update_unattributed) as nat);
    let sent = text::decimal(results::dispatched(r) as nat);
    let detail = match r.update_attribution_detail {
        Some(d) => d@,
        None => "no detail recorded"@,
    };
    let words =
        " dispatched updates were accepted by the server, which reported that the row each one addressed did not already exist. Signal read: "@;
    reveal_strlit(
        " dispatched updates were accepted by the server, which reported that the row each one addressed did not already exist. Signal read: ",
    );
    reveal_strlit(" dispatched updates");
    let told = " dispatched updates"@;
    let n = told.len() as int;
    assert(words.take(n) =~= told);
    let end =
        ". Those writes therefore did not OVERWRITE a row already in the corpus this run searched, and `recall` cannot show it — the rows the queries score against are there either way (issue #293). The signal does not say WHY the rows were absent; all of these produce it: the update half addressing a different key/collection than the search half; a reused corpus (`--skip-upload`) that is shorter than the dataset or was written with a different document shape; or rows lost mid-run to eviction or failover. Re-upload this config, or pass --allow-partial-corpus to measure a deliberately partial corpus anyway."@;
    let whole = results::attribution_message(r);
    assert(words =~= told + words.skip(n));
    assert(whole =~= "mixed workload: "@ + (lost + " of "@ + sent + told) + (words.skip(n) + detail
        + end));
    text::a_text_holds_its_parts(
        "mixed workload: "@,
        lost + " of "@ + sent + told,
        words.skip(n) + detail + end,
    );
    assert(whole =~= ("mixed workload: "@ + lost + " of "@ + sent + words) + detail + end);
    text::a_text_holds_its_parts(
        "mixed workload: "@ + lost + " of "@ + sent + words,
        detail,
        end,
    );
}

/// An experiment is announced by its number of so many, its configuration and its dataset.
pub proof fn experiments_are_announced_by_their_number(
    number: nat,
    total: nat,
    name: Seq<char>,
    dataset: Seq<char>,
)
    ensures
        text::holds_text(
            agenda::headline(number, total, name, dataset),
            text::decimal(number) + "/"@ + text::decimal(total),
        ),
        text::holds_text(agenda::headline(number, total, name, dataset), name + " - "@ + dataset),
{
    let intro = "Running experiment ("@;
    let counted = text::decimal(number) + "/"@ + text::decimal(total);
    let named = name + " - "@ + dataset;
    let whole = agenda::headline(number, total, name, dataset);
    assert(whole =~= intro + counted + ("): "@ + named));
    text::a_text_holds_its_parts(intro, counted, "): "@ + named);
    assert(whole =~= (intro + counted + "): "@) + named + Seq::empty());
    text::a_text_holds_its_parts(intro + counted + "): "@, named, Seq::empty());
}

/// Payloads that are not as many as the vectors are told with both numbers, each by its name.
pub proof fn counts_that_differ_are_told(payloads: nat, vectors: nat)
    ensures
        text::holds_text(
            compound_reader::count_error(payloads, vectors),
            "Metadata count ("@ + text::decimal(payloads),
        ),
        text::holds_text(
            compound_reader::count_error(payloads, vectors),
            " vector count ("@ + text::decimal(vectors),
        ),
{
    let first = "Metadata count ("@ + text::decimal(payloads);
    let words = ") doesn't match vector count ("@;
    reveal_strlit(") doesn't match vector count (");
    reveal_strlit(" vector count (");
    let told = " vector count ("@;
    let n = words.len() - told.len();
    assert(words.skip(n) =~= told);
    assert(words =~= words.take(n) + told);
    let second = text::decimal(vectors);
    let whole = compound_reader::count_error(payloads, vectors);
    assert(whole =~= Seq::empty() + first + (words + second + ")"@));
    text::a_text_holds_its_parts(Seq::empty(), first, words + second + ")"@);
    assert(whole =~= (first + words.take(n)) + (told + second) + ")"@);
    text::a_text_holds_its_parts(first + words.take(n), told + second, ")"@);
}

/// A failure is told with its configuration, its dataset and its reason, each by its name.
pub proof fn failures_are_told_by_their_place(config: Seq<char>, dataset: Seq<char>, why: Seq<char>)
    ensures
        text::holds_text(plan::named_failure(config, dataset, why), "[config="@ + config),
        text::holds_text(plan::named_failure(config, dataset, why), " dataset="@ + dataset),
        text::holds_text(plan::named_failure(config, dataset, why), why),
{
    let first = "[config="@ + config;
    let second = " dataset="@ + dataset;
    let whole = plan::named_failure(config, dataset, why);
    assert(whole =~= Seq::empty() + first + (second + "] "@ + why));
    text::a_text_holds_its_parts(Seq::empty(), first, second + "] "@ + why);
    assert(whole =~= first + second + ("] "@ + why));
    text::a_text_holds_its_parts(first, second, "] "@ + why);
    assert(whole =~= (first + second + "] "@) + why + Seq::empty());
    text::a_text_holds_its_parts(first + second + "] "@, why, Seq::empty());
}

/// A query that failed is told by its number, with the reason.
pub proof fn failed_queries_are_told_by_their_number(idx: nat, why: Seq<char>)
    ensures
        text::holds_text(search::failure(idx, why), "Search query "@ + text::decimal(idx)),
        text::holds_text(search::failure(idx, why), why),
{
    let first = "Search query "@ + text::decimal(idx);
    let whole = search::failure(idx, why);
    assert(whole =~= Seq::empty() + first + (" failed: "@ + why));
    text::a_text_holds_its_parts(Seq::empty(), first, " failed: "@ + why);
    assert(whole =~= (first + " failed: "@) + why + Seq::empty());
    text::a_text_holds_its_parts(first + " failed: "@, why, Seq::empty());
}

/// A check that covers too little is told with the queries and the positions that it covered.
pub proof fn thin_coverage_is_told(limit: u64, queries: nat, positions: nat)
    ensures
        text::holds_text(
            crosscheck::coverage_error(limit, queries, positions),
            text::decimal(queries) + " queries / "@ + text::decimal(positions),
        ),
{
    let intro = "ground-truth cross-check covered only "@;
    let counted = text::decimal(queries) + " queries / "@ + text::decimal(positions);
    let floor = " ranking positions, below the floor of "@ + text::decimal(83) + " / "@
        + text::decimal(crosscheck::position_floor(limit) as nat) + " for a "@ + text::decimal(
        limit as nat,
    );
    let end =
        "-passage prefix. The shipped top-1k is the only independent check on this ground truth, so publishing a corpus it barely touched would mean publishing an unverified one. Most likely the upstream top1k export changed shape, or the offsets are being mapped wrongly."@;
    let whole = crosscheck::coverage_error(limit, queries, positions);
    assert(whole =~= intro + counted + (floor + end));
    text::a_text_holds_its_parts(intro, counted, floor + end);
}

/// The verdicts on a corpus have tags of their own.
pub proof fn verdicts_have_tags_of_their_own(a: ReusePrecondition)
    ensures
        a is Verified <==> a.tag() == "verified"@,
        a is NoServerCount <==> a.tag() == "unverified"@,
        a is CorpusSizeUnknown <==> a.tag() == "corpus_size_unknown"@,
        a is Surplus <==> a.tag() == "surplus"@,
        a is Short <==> a.tag() == "short"@,
        a.detail() is Some <==> a is CorpusSizeUnknown,
{
    reveal_strlit("verified");
    reveal_strlit("unverified");
    reveal_strlit("corpus_size_unknown");
    reveal_strlit("surplus");
    reveal_strlit("short");
    assert("verified"@.len() == 8);
    assert("unverified"@.len() == 10);
    assert("corpus_size_unknown"@.len() == 19);
    assert("surplus"@.len() == 7);
    assert("short"@.len() == 5);
}

/// An object that was not stored is told with its status and the first message that the server gives for it.
pub proof fn objects_that_were_not_stored_are_told(
    object: JsonView,
    result: JsonView,
    errors: JsonView,
    items: Seq<JsonView>,
    message: Seq<char>,
    status: Seq<char>,
)
    requires
        object.member("result"@) == Some(result),
        result.member("status"@) == Some(JsonView::Text(status)),
        result.member("errors"@) == Some(errors),
        errors.member("error"@) == Some(JsonView::Array(items)),
        items.len() > 0,
        items[0].member("message"@) == Some(JsonView::Text(message)),
    ensures
        schema::import_error(object) == message,
        schema::import_failed(object) <==> status != "SUCCESS"@,
        text::holds_text(schema::import_text(object), message),
        text::holds_text(schema::import_text(object), status),
{
    let intro = "Batch object import failed (status "@;
    let whole = schema::import_text(object);
    assert(whole =~= intro + status + ("): "@ + message));
    text::a_text_holds_its_parts(intro, status, "): "@ + message);
    assert(whole =~= (intro + status + "): "@) + message + Seq::empty());
    text::a_text_holds_its_parts(intro + status + "): "@, message, Seq::empty());
}

/// The transport of a run is told by its name.
pub proof fn transports_are_told_by_their_names(
    endpoint_available: bool,
    num_filtered: nat,
    untranslatable: nat,
    queries: nat,
)
    ensures
        "grpc"@.is_prefix_of(
            engine::transport_text(
                endpoint_available,
                Transport::Grpc,
                num_filtered,
                untranslatable,
                queries,
            ),
        ),
        "graphql"@.is_prefix_of(
            engine::transport_text(
                endpoint_available,
                Transport::Graphql,
                num_filtered,
                untranslatable,
                queries,
            ),
        ),
{
    reveal_strlit("grpc");
    reveal_strlit("graphql");
    reveal_strlit("grpc (");
    reveal_strlit("graphql (forced — ");
    let a = engine::transport_text(
        endpoint_available,
        Transport::Grpc,
        num_filtered,
        untranslatable,
        queries,
    );
    let b = engine::transport_text(
        endpoint_available,
        Transport::Graphql,
        num_filtered,
        untranslatable,
        queries,
    );
    assert(a.take(4) =~= "grpc"@);
    assert(b.take(7) =~= "graphql"@);
}

/// A chart of points has a line for every step of the rate, with its own label and the points on it, below
/// its title.
pub proof fn charts_have_a_line_for_every_step(
    engine_name: Seq<char>,
    dataset: Seq<char>,
    points: Seq<(usize, usize)>,
    rates: Seq<Seq<char>>,
    precisions: Seq<Seq<char>>,
    i: int,
)
    requires
        0 <= i < 12,
    ensures
        ({
            let lines = tables::plot_lines(engine_name, dataset, points, rates, precisions);
            &&& lines.len() == 16
            &&& lines[i + 1].skip(lines[i + 1].len() - 60) == tables::plot_line(points, i)
            &&& tables::right_in(rates[i], 8).is_prefix_of(lines[i + 1])
            &&& text::holds_text(lines[0], engine_name)
            &&& text::holds_text(lines[0], dataset)
        }),
{
    let lines = tables::plot_lines(engine_name, dataset, points, rates, precisions);
    let label = tables::right_in(rates[i], 8) + " \u{2502}"@;
    assert(lines[i + 1] == label + tables::plot_line(points, i));
    assert(lines[i + 1].skip(label.len() as int) =~= tables::plot_line(points, i));
    let intro = "\nQPS vs Precision Trade-off - "@;
    let end = " (up and to the right is better):\n"@;
    let title = tables::plot_title(engine_name, dataset);
    assert(title =~= intro + engine_name + (" - "@ + dataset + end));
    text::a_text_holds_its_parts(intro, engine_name, " - "@ + dataset + end);
    assert(title =~= (intro + engine_name + " - "@) + dataset + end);
    text::a_text_holds_its_parts(intro + engine_name + " - "@, dataset, end);
}

} // verus!
