//! What the preparation of the corpus promises: which passages are kept, how they rank, and what the check
//! against the shipped ranking finds.
use vstd::prelude::*;

use crate::float_bits;
use crate::json::{self, JsonView, NumberView};
use crate::msmarco::crosscheck::{self, ScoreGap};
use crate::msmarco::records;
use crate::msmarco::sampling;
use crate::msmarco::topk;
use crate::text;

verus! {

/// The best matches have the highest scores: they stand in descending order, those with equal scores by
/// ascending number, and what is left out has no higher score than any of them, and a higher number where its
/// score is as high.
pub proof fn the_highest_scores_are_kept(entries: Seq<(u32, i64)>, k: int, i: int, j: int, l: int)
    requires
        topk::in_order(entries),
        0 < k,
        0 <= i < entries.len(),
        0 <= j < topk::best_of(entries, k).len(),
        0 <= l < j,
    ensures
        ({
            let best = topk::best_of(entries, k);
            &&& !float_bits::less32(best[l].0, best[j].0)
            &&& !float_bits::less32(best[j].0, best[l].0) ==> best[l].1 < best[j].1
            &&& !best.contains(entries[i]) ==> !float_bits::less32(best[j].0, entries[i].0)
            &&& !best.contains(entries[i]) && !float_bits::less32(entries[i].0, best[j].0) ==> best[j].1
                < entries[i].1
        }),
{
    topk::the_best_are_kept(entries, k);
    let best = topk::best_of(entries, k);
    assert(topk::better(best[l], best[j]));
    if !best.contains(entries[i]) {
        assert(topk::better(best[j], entries[i]));
    }
}

/// Every shipped hit of a passage in the sample is kept, in the order of the ranking, with its own number,
/// identifier and score, and no other.
pub proof fn shipped_hits_in_the_sample_are_kept(
    offsets: Seq<i64>,
    passage_ids: Seq<String>,
    cossims: Seq<u32>,
    limit: u64,
    n: int,
) -> (places: Seq<int>)
    requires
        0 <= n <= offsets.len(),
    ensures
        places.len() == crosscheck::hits_below(offsets, passage_ids, cossims, limit, n).len(),
        forall|k: int|
            0 <= k < places.len() ==> {
                let i = #[trigger] places[k];
                0 <= i < n && 0 <= offsets[i] < limit && crosscheck::hits_below(
                    offsets,
                    passage_ids,
                    cossims,
                    limit,
                    n,
                )[k] == (offsets[i], passage_ids[i]@, cossims[i])
            },
        forall|k: int, l: int|
            0 <= k < l < places.len() ==> #[trigger] places[k] < #[trigger] places[l],
        forall|i: int| 0 <= i < n && 0 <= #[trigger] offsets[i] < limit ==> places.contains(i),
    decreases n,
{
    if n == 0 {
        Seq::empty()
    } else {
        let earlier = shipped_hits_in_the_sample_are_kept(
            offsets,
            passage_ids,
            cossims,
            limit,
            n - 1,
        );
        if 0 <= offsets[n - 1] < limit {
            let places = earlier.push(n - 1);
            assert forall|i: int| 0 <= i < n && 0 <= #[trigger] offsets[i] < limit implies places.contains(
                i,
            ) by {
                if i < n - 1 {
                    let k = choose|k: int| 0 <= k < earlier.len() && earlier[k] == i;
                    assert(places[k] == i);
                } else {
                    assert(places[earlier.len() as int] == i);
                }
            }
            places
        } else {
            earlier
        }
    }
}

/// Every shipped passage with a number is remembered, and nothing else.
pub proof fn shipped_passages_are_remembered(offsets: Seq<i64>, x: u64)
    ensures
        crosscheck::nonnegative(offsets).contains(x) <==> x <= i64::MAX && offsets.contains(x as i64),
    decreases offsets.len(),
{
    let kept = crosscheck::nonnegative(offsets);
    if offsets.len() > 0 {
        let front = offsets.drop_last();
        shipped_passages_are_remembered(front, x);
        let earlier = crosscheck::nonnegative(front);
        if earlier.contains(x) {
            let k = choose|k: int| 0 <= k < earlier.len() && earlier[k] == x;
            assert(kept[k] == x);
        }
        if front.contains(x as i64) {
            let k = choose|k: int| 0 <= k < front.len() && front[k] == x as i64;
            assert(offsets[k] == x as i64);
        }
        if x <= i64::MAX && offsets.contains(x as i64) {
            let k = choose|k: int| 0 <= k < offsets.len() && offsets[k] == x as i64;
            if k < front.len() {
                assert(front[k] == x as i64);
            } else {
                assert(kept[earlier.len() as int] == x);
            }
        }
        if kept.contains(x) && !earlier.contains(x) {
            let k = choose|k: int| 0 <= k < kept.len() && kept[k] == x;
            if k < earlier.len() {
                assert(earlier[k] == x);
            }
            assert(offsets[offsets.len() - 1] == x as i64);
        }
    }
}

/// At least a quarter of what an even spread would keep is compared, rounded down, and never fewer than a
/// hundred positions.
pub proof fn a_quarter_of_an_even_spread_is_compared(limit: u64)
    requires
        limit <= 113_520_750,
    ensures
        crosscheck::position_floor(limit) >= 100,
        crosscheck::position_floor(limit) > 100 ==> 454_083_000 * crosscheck::position_floor(limit)
            <= 1_677_000 * limit < 454_083_000 * (crosscheck::position_floor(limit) + 1),
        1_677_000 * limit >= 45_862_383_000 ==> crosscheck::position_floor(limit) > 100,
{
    let hits = 1_677_000 * limit;
    assert(crosscheck::SHIPPED_TOP_DEPTH * sampling::QUERY_COUNT * limit == hits) by (nonlinear_arith)
        requires
            crosscheck::SHIPPED_TOP_DEPTH == 1000,
            sampling::QUERY_COUNT == 1677,
            hits == 1_677_000 * limit,
    ;
    let all = sampling::TOTAL_PASSAGES as int;
    let even = crosscheck::uniform_hits(limit);
    let spread = crosscheck::SHIPPED_TOP_DEPTH * sampling::QUERY_COUNT * limit;
    assert(spread == hits);
    assert(crosscheck::saturated(spread) == hits);
    assert(even == crosscheck::saturated(spread) / all);
    vstd::arithmetic::div_mod::lemma_fundamental_div_mod(hits, all);
    vstd::arithmetic::div_mod::lemma_mod_bound(hits, all);
    assert(113_520_750 * even <= hits < 113_520_750 * (even + 1)) by (nonlinear_arith)
        requires
            all == 113_520_750,
            hits == all * even + hits % all,
            0 <= hits % all < all,
    ;
}

/// A place of a block is in the row and at the component that make it up.
pub proof fn places_are_told_by_row_and_component(pos: int, dim: int)
    requires
        0 <= pos,
        0 < dim,
    ensures
        crosscheck::row_and_component(pos, dim).0 * dim + crosscheck::row_and_component(pos, dim).1
            == pos,
        0 <= crosscheck::row_and_component(pos, dim).1 < dim,
        0 <= crosscheck::row_and_component(pos, dim).0,
{
    vstd::arithmetic::div_mod::lemma_fundamental_div_mod(pos, dim);
    vstd::arithmetic::div_mod::lemma_mod_bound(pos, dim);
    vstd::arithmetic::div_mod::lemma_div_pos_is_pos(pos, dim);
    let q = pos / dim;
    assert(dim * q == q * dim) by (nonlinear_arith);
}

/// The first value that is no finite number is reported: one that is none, with finite numbers only before
/// it.
pub proof fn the_first_value_that_is_not_finite_is_reported(block: Seq<u32>, from: int, i: int)
    requires
        0 <= from <= i < block.len(),
        !float_bits::is_finite32(block[i]),
    ensures
        crosscheck::first_nonfinite(block, from) matches Some(pos) && from <= pos <= i
            && !float_bits::is_finite32(block[pos]),
    decreases block.len() - from,
{
    if float_bits::is_finite32(block[from]) {
        the_first_value_that_is_not_finite_is_reported(block, from + 1, i);
    }
}

/// A field is reported where it is larger than an engine takes, once for each such engine: a keyword above
/// the limit of Elasticsearch, and what Milvus holds as characters above its limit.
pub proof fn fields_that_are_too_large_are_reported(field: Seq<char>, measured: nat)
    ensures
        crosscheck::field_lines(field, "keyword"@, measured).len() == (if measured > 65_535 {
            2int
        } else if measured > 32_766 {
            1
        } else {
            0
        }),
        crosscheck::field_lines(field, "text"@, measured).len() == (if measured > 65_535 {
            1int
        } else {
            0
        }),
        crosscheck::field_lines(field, "int"@, measured).len() == 0,
{
    reveal_strlit("keyword");
    reveal_strlit("text");
    reveal_strlit("uuid");
    reveal_strlit("int");
    assert("keyword"@.len() == 7);
    assert("text"@.len() == 4);
    assert("uuid"@.len() == 4);
    assert("int"@.len() == 3);
    assert("text"@[0] != "uuid"@[0]);
}

/// The positions below `n` at which another passage stands than the shipped one.
pub open spec fn swapped(ranked: Seq<(u32, i64)>, hits: Seq<(i64, Seq<char>, u32)>, n: int) -> Set<int> {
    Set::new(|i: int| 0 <= i < n && ranked[i].1 != hits[i].0)
}

/// A check that passes counts every position with another passage, and reports a difference of scores that
/// no other exceeds and that one position has, or zero.
pub proof fn every_swap_is_counted(
    ranked: Seq<(u32, i64)>,
    hits: Seq<(i64, Seq<char>, u32)>,
    gaps: Seq<ScoreGap>,
    docid_at: Map<i64, String>,
    tol: u32,
    tol_shown: Seq<char>,
    n: int,
    i: int,
)
    requires
        0 <= n,
        0 <= i < n,
    ensures
        crosscheck::checked(ranked, hits, gaps, docid_at, tol, tol_shown, n) matches Ok(
            (largest, swaps),
        ) ==> {
            &&& swapped(ranked, hits, n).finite()
            &&& swaps == swapped(ranked, hits, n).len()
            &&& !float_bits::less32(largest, gaps[i].delta)
            &&& !float_bits::is_nan32(largest)
            &&& largest == 0 || exists|j: int| 0 <= j < n && (#[trigger] gaps[j]).delta == largest
        },
    decreases n,
{
    if let Ok((largest, swaps)) = crosscheck::checked(
        ranked,
        hits,
        gaps,
        docid_at,
        tol,
        tol_shown,
        n,
    ) {
        let now = swapped(ranked, hits, n);
        let earlier = swapped(ranked, hits, n - 1);
        if n == 1 {
            assert(earlier =~= Set::empty());
            assert(crosscheck::checked(ranked, hits, gaps, docid_at, tol, tol_shown, 0) == Ok::<
                (u32, nat),
                Seq<char>,
            >((0, 0)));
        } else {
            every_swap_is_counted(
                ranked,
                hits,
                gaps,
                docid_at,
                tol,
                tol_shown,
                n - 1,
                if i < n - 1 {
                    i
                } else {
                    0
                },
            );
        }
        if ranked[n - 1].1 != hits[n - 1].0 {
            assert(now =~= earlier.insert(n - 1));
        } else {
            assert(now =~= earlier);
        }
        assert(gaps[n - 1].delta == gaps[n - 1].delta);
    }
}

/// A check fails where a position has another passage whose score is off by more than the tolerance, the
/// shipped passage with such a score, or a passage that the metadata names differently.
pub proof fn a_head_that_disagrees_fails(
    ranked: Seq<(u32, i64)>,
    hits: Seq<(i64, Seq<char>, u32)>,
    gaps: Seq<ScoreGap>,
    docid_at: Map<i64, String>,
    tol: u32,
    tol_shown: Seq<char>,
    n: int,
    i: int,
)
    requires
        0 <= i < n,
        float_bits::less32(tol, gaps[i].delta) || (ranked[i].1 != hits[i].0 && float_bits::is_nan32(
            gaps[i].delta,
        )) || (docid_at.dom().contains(hits[i].0) && docid_at[hits[i].0]@ != hits[i].1),
    ensures
        crosscheck::checked(ranked, hits, gaps, docid_at, tol, tol_shown, n) is Err,
{
    if crosscheck::checked(ranked, hits, gaps, docid_at, tol, tol_shown, n) is Ok {
        crosscheck::a_passed_head_agrees(ranked, hits, gaps, docid_at, tol, tol_shown, n, i);
    }
}

/// How many of the documents are in the sample below a threshold.
pub open spec fn sampled(docids: Seq<Seq<char>>, threshold: int) -> int
    decreases docids.len(),
{
    if docids.len() == 0 {
        0
    } else {
        sampled(docids.drop_last(), threshold) + if sampling::bucket_of(docids.last()) < threshold {
            1int
        } else {
            0int
        }
    }
}

/// The tallies of the buckets below a threshold are the documents of the sample.
proof fn lemma_tallies(docids: Seq<Seq<char>>, threshold: int)
    requires
        0 <= threshold,
    ensures
        sampled(docids, threshold + 1) == sampled(docids, threshold) + sampling::tally(
            docids,
            threshold,
        ),
    decreases docids.len(),
{
    if docids.len() > 0 {
        lemma_tallies(docids.drop_last(), threshold);
    }
}

/// In no bucket there is no document.
proof fn lemma_nothing_sampled(docids: Seq<Seq<char>>)
    ensures
        sampled(docids, 0) == 0,
    decreases docids.len(),
{
    if docids.len() > 0 {
        lemma_nothing_sampled(docids.drop_last());
    }
}

/// The buckets below a threshold count the documents of the sample below it: a document is counted where
/// it is kept.
pub proof fn samples_are_as_large_as_counted(counts: Seq<u64>, docids: Seq<Seq<char>>, threshold: int)
    requires
        0 <= threshold <= counts.len(),
        forall|b: int| 0 <= b < counts.len() ==> #[trigger] counts[b] == sampling::tally(docids, b),
    ensures
        sampling::sum_below(counts, threshold) == sampled(docids, threshold),
    decreases threshold,
{
    if threshold == 0 {
        lemma_nothing_sampled(docids);
    } else {
        samples_are_as_large_as_counted(counts, docids, threshold - 1);
        lemma_tallies(docids, threshold - 1);
    }
}

/// Characters up to the first quote are what stands before it.
proof fn lemma_before_quote(d: Seq<char>, rest: Seq<char>)
    requires
        !d.contains('"'),
        !d.contains('\\'),
    ensures
        sampling::before_quote(d + seq!['"'] + rest) == Some(d),
    decreases d.len(),
{
    let s = d + seq!['"'] + rest;
    if d.len() == 0 {
        assert(s[0] == '"');
        assert(d =~= Seq::empty());
    } else {
        let tail = d.skip(1);
        if tail.contains('"') {
            let k = choose|k: int| 0 <= k < tail.len() && tail[k] == '"';
            assert(d[k + 1] == '"');
        }
        if tail.contains('\\') {
            let k = choose|k: int| 0 <= k < tail.len() && tail[k] == '\\';
            assert(d[k + 1] == '\\');
        }
        assert(d.contains(d[0]));
        lemma_before_quote(tail, rest);
        assert(s.skip(1) =~= tail + seq!['"'] + rest);
        assert(seq![d[0]] + tail =~= d);
    }
}

/// A document identifier without an escape at the front of a line is read as it stands there.
pub proof fn identifiers_are_read_as_they_stand(d: Seq<char>, rest: Seq<char>)
    requires
        !d.contains('"'),
        !d.contains('\\'),
    ensures
        sampling::docid_of("{\"docid\":"@ + seq!['"'] + d + seq!['"'] + rest) == Some(d),
        sampling::docid_of("{\"docid\":"@ + seq![' ', '"'] + d + seq!['"'] + rest) == Some(d),
{
    let key = "{\"docid\":"@;
    lemma_before_quote(d, rest);
    let line = key + seq!['"'] + d + seq!['"'] + rest;
    let behind = seq!['"'] + d + seq!['"'] + rest;
    assert(line.take(key.len() as int) =~= key);
    assert(line.skip(key.len() as int) =~= behind);
    assert(text::trimmed_front(behind) == behind);
    assert(behind.skip(1) =~= d + seq!['"'] + rest);
    let line = key + seq![' ', '"'] + d + seq!['"'] + rest;
    let spaced = seq![' '] + behind;
    assert(line.take(key.len() as int) =~= key);
    assert(line.skip(key.len() as int) =~= spaced);
    assert(text::white_space(spaced[0]));
    assert(spaced.skip(1) =~= behind);
    assert(text::trimmed_front(spaced) == text::trimmed_front(behind));
}

/// Every shard has a name of its own.
pub proof fn shards_have_names_of_their_own(a: nat, b: nat)
    requires
        a != b,
    ensures
        sampling::stem(a) != sampling::stem(b),
        a < 100 ==> sampling::stem(a).len() == sampling::stem(0).len(),
{
    let front = "msmarco_v2.1_doc_segmented_"@;
    reveal_strlit("0");
    let x = if a < 10 {
        "0"@ + text::decimal(a)
    } else {
        text::decimal(a)
    };
    let y = if b < 10 {
        "0"@ + text::decimal(b)
    } else {
        text::decimal(b)
    };
    assert((front + x).skip(front.len() as int) =~= x);
    assert((front + y).skip(front.len() as int) =~= y);
    lemma_padded(a);
    lemma_padded(b);
    assert(text::digits_value(x) != text::digits_value(y));
    if a < 100 && a >= 10 {
        assert(text::decimal(a / 10).len() == 1);
    }
    assert(text::decimal(0).len() == 1);
}

/// A zero in front does not change what digits write.
proof fn lemma_padded(a: nat)
    ensures
        a < 10 ==> text::digits_value("0"@ + text::decimal(a)) == a,
        text::digits_value(text::decimal(a)) == a,
{
    text::decimal_reads_back(a);
    reveal_strlit("0");
    if a < 10 {
        let s = "0"@ + text::decimal(a);
        assert(s.drop_last() =~= "0"@);
        assert("0"@.drop_last() =~= Seq::empty());
        assert(text::digits_value("0"@.drop_last()) == 0);
        assert(text::digits_value("0"@) == 0);
        assert(s.last() == text::decimal(a).last());
        assert(text::decimal(a).drop_last() =~= Seq::empty());
        assert(text::digits_value(text::decimal(a).drop_last()) == 0);
    }
}

/// The record of a histogram has the number of passages, and for each target what was aimed at, the
/// threshold that comes closest and the size of its sample, each under its own name.
pub proof fn histograms_are_written_under_their_names(counts: Seq<u64>, targets: Seq<u64>, j: int)
    requires
        0 <= j < targets.len(),
    ensures
        ({
            let document = sampling::record(counts, targets);
            &&& document.member("total_passages"@) == Some(
                JsonView::Number(
                    NumberView::PosInt(
                        sampling::sum_below(counts, sampling::CRC32_BUCKETS as int) as u64,
                    ),
                ),
            )
            &&& document.member("buckets"@) == Some(JsonView::Number(NumberView::PosInt(1_000_000)))
            &&& document.member("targets"@) matches Some(JsonView::Array(list))
            &&& list.len() == targets.len()
            &&& list[j].member("target"@) == Some(JsonView::Number(NumberView::PosInt(targets[j])))
            &&& list[j].member("threshold"@) == Some(
                JsonView::Number(
                    NumberView::PosInt(
                        sampling::closest_threshold(counts, targets[j] as int) as u64,
                    ),
                ),
            )
            &&& list[j].member("realized"@) == Some(
                JsonView::Number(
                    NumberView::PosInt(
                        sampling::sum_below(
                            counts,
                            sampling::closest_threshold(counts, targets[j] as int),
                        ) as u64,
                    ),
                ),
            )
        }),
{
    broadcast use json::put_then_member;

    reveal_strlit("buckets");
    assert("buckets"@.len() == 7);
    reveal_strlit("total_passages");
    assert("total_passages"@.len() == 14);
    reveal_strlit("targets");
    assert("targets"@.len() == 7);
    reveal_strlit("target");
    assert("target"@.len() == 6);
    reveal_strlit("threshold");
    assert("threshold"@.len() == 9);
    reveal_strlit("realized");
    assert("realized"@.len() == 8);
    assert("buckets"@[0] != "targets"@[0]);
}

/// The record of a query has its vector, the numbers and the scores of its neighbours in their order, and
/// where it comes from, each under its own name.
pub proof fn queries_are_written_under_their_names(
    query: Seq<JsonView>,
    query_id: Seq<char>,
    query_text: Seq<char>,
    trec_year: Option<i64>,
    ids: Seq<i64>,
    scores: Seq<JsonView>,
    i: int,
)
    requires
        0 <= i < ids.len(),
    ensures
        ({
            let document = records::test_record(query, query_id, query_text, trec_year, ids, scores);
            &&& document.member("query"@) == Some(JsonView::Array(query))
            &&& document.member("closest_ids"@) matches Some(JsonView::Array(list))
            &&& list.len() == ids.len()
            &&& list[i].as_int() == Some(ids[i] as int)
            &&& document.member("closest_scores"@) == Some(JsonView::Array(scores))
            &&& document.member("query_id"@) == Some(JsonView::Text(query_id))
            &&& document.member("query_text"@) == Some(JsonView::Text(query_text))
            &&& document.member("trec_year"@) == Some(
                match trec_year {
                    Some(y) => json::int_view(y),
                    None => JsonView::Null,
                },
            )
            &&& document.member("conditions"@) is None
        }),
{
    broadcast use json::put_then_member;

    reveal_strlit("query");
    assert("query"@.len() == 5);
    reveal_strlit("closest_ids");
    assert("closest_ids"@.len() == 11);
    reveal_strlit("closest_scores");
    assert("closest_scores"@.len() == 14);
    reveal_strlit("query_id");
    assert("query_id"@.len() == 8);
    reveal_strlit("query_text");
    assert("query_text"@.len() == 10);
    reveal_strlit("trec_year");
    assert("trec_year"@.len() == 9);
    reveal_strlit("conditions");
    assert("conditions"@.len() == 10);
    assert("query_text"@[0] != "conditions"@[0]);
}

/// The rows of a block are offered with their own scores, under numbers that count on from the first, behind
/// all that was offered before.
pub proof fn blocks_are_offered_row_by_row(
    offered: Seq<Seq<(u32, i64)>>,
    scores: Seq<Vec<u32>>,
    first_id: i64,
    q: int,
    i: int,
)
    requires
        0 <= q < offered.len() == scores.len(),
        0 <= i < scores[q]@.len(),
        first_id + scores[q]@.len() <= i64::MAX,
    ensures
        topk::with_block(offered, scores, first_id as int).len() == offered.len(),
        ({
            let now = topk::with_block(offered, scores, first_id as int)[q];
            &&& now.len() == offered[q].len() + scores[q]@.len()
            &&& offered[q].is_prefix_of(now)
            &&& now[offered[q].len() + i].0 == scores[q]@[i]
            &&& now[offered[q].len() + i].1 == first_id + i
        }),
{
}

/// The size of a field is the first that was measured for it, and nothing where none was.
pub proof fn sizes_are_those_measured(measured: Seq<(String, usize)>, field: Seq<char>, i: int)
    requires
        0 <= i < measured.len(),
        measured[i].0@ == field,
        forall|j: int| 0 <= j < i ==> (#[trigger] measured[j]).0@ != field,
    ensures
        crosscheck::measured_for(measured, field) == Some(measured[i].1),
    decreases i,
{
    if i > 0 {
        let rest = measured.skip(1);
        assert(measured[0].0@ != field);
        assert forall|j: int| 0 <= j < i - 1 implies (#[trigger] rest[j]).0@ != field by {
            assert(rest[j] == measured[j + 1]);
        }
        assert(rest[i - 1] == measured[i]);
        sizes_are_those_measured(rest, field, i - 1);
    }
}

/// Every field of a payload that is too large is reported, whatever the others are.
pub proof fn every_field_is_held_against_the_limits(measured: Seq<(String, usize)>, n: int, i: int, line: Seq<
    char,
>)
    requires
        0 <= i < n,
        crosscheck::measured_for(measured, records::field_name(i)) is Some,
        crosscheck::field_lines(
            records::field_name(i),
            records::field_kind(i),
            crosscheck::measured_for(measured, records::field_name(i))->Some_0 as nat,
        ).contains(line),
    ensures
        crosscheck::cap_lines(measured, n).contains(line),
    decreases n,
{
    let before = crosscheck::cap_lines(measured, n - 1);
    let now = crosscheck::cap_lines(measured, n);
    if i < n - 1 {
        every_field_is_held_against_the_limits(measured, n - 1, i, line);
        let k = choose|k: int| 0 <= k < before.len() && before[k] == line;
        assert(now[k] == line);
    } else {
        let own = crosscheck::field_lines(
            records::field_name(i),
            records::field_kind(i),
            crosscheck::measured_for(measured, records::field_name(i))->Some_0 as nat,
        );
        let k = choose|k: int| 0 <= k < own.len() && own[k] == line;
        assert(now[before.len() + k] == line);
    }
}

} // verus!
