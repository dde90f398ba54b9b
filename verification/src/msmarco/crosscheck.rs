//! The cross-check of the ground truth against the ranking that the corpus is shipped with, and the
//! checks of the data that goes into it.
//!
//! Scores and embeddings are held as the bit patterns of single-precision numbers.
use std::collections::HashMap;

use vstd::prelude::*;

use crate::float_bits::{self, below32, finite32, not_above32, show_nonfinite32};
use crate::msmarco::records::{field_type, payload_field_names};
use crate::msmarco::sampling::{QUERY_COUNT, TOTAL_PASSAGES};
use crate::text::{self, debug_text, decimal_text, same_text, signed_decimal_text};

verus! {

/// The depth of the ranking that is shipped for each query.
pub const SHIPPED_TOP_DEPTH: u64 = 1000;

/// The shipped hits of one query that are in the sample, the best first: the number of the passage,
/// its identifier and its score.
#[derive(Debug, Clone)]
pub struct InPrefixHits {
    pub hits: Vec<(i64, String, u32)>,
}

/// The shipped hits whose numbers are below `limit`, in the order of their rank.
pub open spec fn hits_below(
    offsets: Seq<i64>,
    passage_ids: Seq<String>,
    cossims: Seq<u32>,
    limit: u64,
    n: int,
) -> Seq<(i64, Seq<char>, u32)>
    decreases n,
{
    if n <= 0 {
        Seq::empty()
    } else {
        let earlier = hits_below(offsets, passage_ids, cossims, limit, n - 1);
        if 0 <= offsets[n - 1] < limit {
            earlier.push((offsets[n - 1], passage_ids[n - 1]@, cossims[n - 1]))
        } else {
            earlier
        }
    }
}

/// The views of hits.
pub open spec fn hits_view(hits: Seq<(i64, String, u32)>) -> Seq<(i64, Seq<char>, u32)> {
    Seq::new(hits.len(), |i: int| (hits[i].0, hits[i].1@, hits[i].2))
}

/// The shipped hits of one query whose numbers are below `limit`, in the order of their rank. Lists
/// of different lengths are an error.
pub fn in_prefix_hits(offsets: &[i64], passage_ids: &[String], cossims: &[u32], limit: u64) -> (r:
    Result<InPrefixHits, String>)
    ensures
        offsets@.len() != passage_ids@.len() || offsets@.len() != cossims@.len() ==> (r matches Err(
            e,
        ) && e@ == "shipped top1k arrays disagree in length: "@ + text::decimal(offsets@.len())
            + " offsets, "@ + text::decimal(passage_ids@.len()) + " passage ids, "@
            + text::decimal(cossims@.len()) + " cosines"@),
        offsets@.len() == passage_ids@.len() && offsets@.len() == cossims@.len() ==> (r matches Ok(
            h,
        ) && hits_view(h.hits@) == hits_below(
            offsets@,
            passage_ids@,
            cossims@,
            limit,
            offsets@.len() as int,
        )),
{
    if offsets.len() != passage_ids.len() || offsets.len() != cossims.len() {
        let mut e: String = "shipped top1k arrays disagree in length: ".to_owned();
        e.append(decimal_text(offsets.len() as u64).as_str());
        e.append(" offsets, ");
        e.append(decimal_text(passage_ids.len() as u64).as_str());
        e.append(" passage ids, ");
        e.append(decimal_text(cossims.len() as u64).as_str());
        e.append(" cosines");
        return Err(e);
    }
    let mut hits: Vec<(i64, String, u32)> = Vec::new();
    let mut i: usize = 0;
    assert(hits_view(hits@) =~= Seq::empty());
    while i < offsets.len()
        invariant
            i <= offsets@.len(),
            offsets@.len() == passage_ids@.len(),
            offsets@.len() == cossims@.len(),
            hits_view(hits@) == hits_below(offsets@, passage_ids@, cossims@, limit, i as int),
        decreases offsets@.len() - i,
    {
        let ghost sofar = hits_view(hits@);
        let off: i64 = offsets[i];
        if off >= 0 && (off as u64) < limit {
            hits.push((off, passage_ids[i].clone(), cossims[i]));
            assert(hits_view(hits@) =~= sofar.push(
                (off, passage_ids@[i as int]@, cossims@[i as int]),
            ));
        }
        i += 1;
    }
    Ok(InPrefixHits { hits })
}

/// What `a * b` is where it fits 64 bits, and the largest number that does where it does not.
pub open spec fn saturated(n: int) -> int {
    if n > u64::MAX {
        u64::MAX as int
    } else {
        n
    }
}

/// The number of shipped hits that a sample of `limit` passages would keep if they were spread evenly.
pub open spec fn uniform_hits(limit: u64) -> int {
    saturated(SHIPPED_TOP_DEPTH * QUERY_COUNT * limit) / (TOTAL_PASSAGES as int)
}

/// The number of ranking positions that must be compared at least: a quarter of what an even spread
/// would give, and never fewer than a hundred.
pub open spec fn position_floor(limit: u64) -> int {
    if uniform_hits(limit) / 4 < 100 {
        100
    } else {
        uniform_hits(limit) / 4
    }
}

/// The number of queries and of ranking positions that a cross-check must cover at least.
pub fn coverage_floor(limit: u64) -> (r: (usize, u64))
    ensures
        r.0 == 83,
        r.0 == QUERY_COUNT / 20,
        r.1 == position_floor(limit),
{
    let product: u128 = 1_677_000u128 * (limit as u128);
    let uniform: u64 = if product > u64::MAX as u128 {
        u64::MAX
    } else {
        product as u64
    } / TOTAL_PASSAGES;
    let quarter: u64 = uniform / 4;
    let positions: u64 = if quarter < 100 {
        100
    } else {
        quarter
    };
    (QUERY_COUNT / 20, positions)
}

/// What is said of a cross-check that covers too little.
pub open spec fn coverage_error(limit: u64, queries: nat, positions: nat) -> Seq<char> {
    "ground-truth cross-check covered only "@ + text::decimal(queries) + " queries / "@
        + text::decimal(positions) + " ranking positions, below the floor of "@ + text::decimal(83)
        + " / "@ + text::decimal(position_floor(limit) as nat) + " for a "@ + text::decimal(
        limit as nat,
    )
        + "-passage prefix. The shipped top-1k is the only independent check on this ground truth, so publishing a corpus it barely touched would mean publishing an unverified one. Most likely the upstream top1k export changed shape, or the offsets are being mapped wrongly."@
}

/// Checks that a cross-check covered enough queries and positions.
pub fn check_coverage(limit: u64, queries_checked: usize, positions_compared: usize) -> (r: Result<
    (),
    String,
>)
    ensures
        queries_checked >= 83 && positions_compared >= position_floor(limit) ==> r is Ok,
        queries_checked < 83 || positions_compared < position_floor(limit) ==> (r matches Err(e)
            && e@ == coverage_error(limit, queries_checked as nat, positions_compared as nat)),
{
    let (min_queries, min_positions): (usize, u64) = coverage_floor(limit);
    if queries_checked < min_queries || (positions_compared as u64) < min_positions {
        let mut e: String = "ground-truth cross-check covered only ".to_owned();
        e.append(decimal_text(queries_checked as u64).as_str());
        e.append(" queries / ");
        e.append(decimal_text(positions_compared as u64).as_str());
        e.append(" ranking positions, below the floor of ");
        e.append(decimal_text(min_queries as u64).as_str());
        e.append(" / ");
        e.append(decimal_text(min_positions).as_str());
        e.append(" for a ");
        e.append(decimal_text(limit).as_str());
        e.append(
            "-passage prefix. The shipped top-1k is the only independent check on this ground truth, so publishing a corpus it barely touched would mean publishing an unverified one. Most likely the upstream top1k export changed shape, or the offsets are being mapped wrongly.",
        );
        return Err(e);
    }
    Ok(())
}

/// The numbers that are not negative, in order.
pub open spec fn nonnegative(offsets: Seq<i64>) -> Seq<u64>
    decreases offsets.len(),
{
    if offsets.len() == 0 {
        Seq::empty()
    } else if offsets.last() >= 0 {
        nonnegative(offsets.drop_last()).push(offsets.last() as u64)
    } else {
        nonnegative(offsets.drop_last())
    }
}

/// The passages whose identifiers must be remembered: all that are shipped and not negative.
pub fn offsets_to_track(shipped_offsets: &[i64]) -> (r: Vec<u64>)
    ensures
        r@ == nonnegative(shipped_offsets@),
{
    let mut r: Vec<u64> = Vec::new();
    let mut i: usize = 0;
    while i < shipped_offsets.len()
        invariant
            i <= shipped_offsets@.len(),
            r@ == nonnegative(shipped_offsets@.take(i as int)),
        decreases shipped_offsets@.len() - i,
    {
        assert(shipped_offsets@.take(i + 1).drop_last() =~= shipped_offsets@.take(i as int));
        if shipped_offsets[i] >= 0 {
            r.push(shipped_offsets[i] as u64);
        }
        i += 1;
    }
    assert(shipped_offsets@.take(i as int) =~= shipped_offsets@);
    r
}

/// The first value from `from` on that is not a finite number.
pub open spec fn first_nonfinite(block: Seq<u32>, from: int) -> Option<int>
    decreases block.len() - from,
{
    if from < 0 || from >= block.len() {
        None
    } else if !float_bits::is_finite32(block[from]) {
        Some(from)
    } else {
        first_nonfinite(block, from + 1)
    }
}

/// Where there is no such value, every value is a finite number.
pub proof fn clean_blocks_are_finite(block: Seq<u32>, from: int, i: int)
    requires
        0 <= from <= i < block.len(),
        first_nonfinite(block, from) is None,
    ensures
        float_bits::is_finite32(block[i]),
        !float_bits::is_nan32(block[i]),
    decreases block.len() - from,
{
    if from < i {
        clean_blocks_are_finite(block, from + 1, i);
    }
}

/// The row that place `pos` of a block is in, and its place there.
pub open spec fn row_and_component(pos: int, dim: int) -> (int, int) {
    if dim == 0 {
        (0, pos)
    } else {
        (pos / dim, pos % dim)
    }
}

/// Checks that a block of embeddings holds finite numbers only: anything else would end up at an
/// arbitrary rank.
pub fn ensure_finite(block: &[u32], first_id: i64, dim: usize) -> (r: Result<(), String>)
    requires
        first_nonfinite(block@, 0) matches Some(pos) ==> first_id + row_and_component(
            pos,
            dim as int,
        ).0 <= i64::MAX,
    ensures
        match first_nonfinite(block@, 0) {
            None => r is Ok,
            Some(pos) => r matches Err(e) && e@ == "passage "@ + text::signed_decimal(
                first_id + row_and_component(pos, dim as int).0,
            ) + " holds a non-finite embedding value ("@ + float_bits::shown_nonfinite32(block@[pos])
                + ") at component "@ + text::decimal(row_and_component(pos, dim as int).1 as nat)
                + " — the upstream float16 data is corrupt or was decoded with the wrong byte order"@,
        },
{
    let mut pos: usize = 0;
    while pos < block.len()
        invariant
            pos <= block@.len(),
            first_nonfinite(block@, 0) matches Some(at) ==> first_id + row_and_component(
                at,
                dim as int,
            ).0 <= i64::MAX,
            first_nonfinite(block@, 0) == first_nonfinite(block@, pos as int),
        decreases block@.len() - pos,
    {
        if !finite32(block[pos]) {
            let row: usize = if dim == 0 {
                0
            } else {
                pos / dim
            };
            let component: usize = if dim == 0 {
                pos
            } else {
                pos % dim
            };
            proof {
                if dim > 0 {
                    assert(0 <= pos as int / dim as int <= pos) by (nonlinear_arith)
                        requires
                            dim > 0,
                            pos >= 0,
                    ;
                }
            }
            let id: i64 = (first_id as i128 + row as i128) as i64;
            let mut e: String = "passage ".to_owned();
            e.append(signed_decimal_text(id).as_str());
            e.append(" holds a non-finite embedding value (");
            e.append(show_nonfinite32(block[pos]));
            e.append(") at component ");
            e.append(decimal_text(component as u64).as_str());
            e.append(
                " — the upstream float16 data is corrupt or was decoded with the wrong byte order",
            );
            return Err(e);
        }
        pos += 1;
    }
    Ok(())
}

/// The largest size measured for a field, where it was measured.
pub open spec fn measured_for(measured: Seq<(String, usize)>, field: Seq<char>) -> Option<usize>
    decreases measured.len(),
{
    if measured.len() == 0 {
        None
    } else if measured[0].0@ == field {
        Some(measured[0].1)
    } else {
        measured_for(measured.skip(1), field)
    }
}

/// What is said of a field that is too large for an engine.
pub open spec fn cap_line(
    field: Seq<char>,
    kind: Seq<char>,
    measured: nat,
    engine: Seq<char>,
    cap: nat,
) -> Seq<char> {
    field + " ("@ + kind + ") reaches "@ + text::decimal(measured) + " bytes, above the "@ + engine
        + " cap of "@ + text::decimal(cap)
        + " — that engine will REJECT inserts for this dataset"@
}

/// Whether the cap of Milvus applies to a type of field.
pub open spec fn milvus_applies(kind: Seq<char>) -> bool {
    kind == "keyword"@ || kind == "text"@ || kind == "uuid"@
}

/// What is said of one field of that type and size.
pub open spec fn field_lines(field: Seq<char>, kind: Seq<char>, measured: nat) -> Seq<Seq<char>> {
    (if milvus_applies(kind) && measured > 65_535 {
        seq![cap_line(field, kind, measured, "Milvus VarChar"@, 65_535)]
    } else {
        Seq::empty()
    }) + (if kind == "keyword"@ && measured > 32_766 {
        seq![cap_line(field, kind, measured, "Elasticsearch/OpenSearch keyword term"@, 32_766)]
    } else {
        Seq::empty()
    })
}

/// What is said of the first `n` fields of the payload.
pub open spec fn cap_lines(measured: Seq<(String, usize)>, n: int) -> Seq<Seq<char>>
    decreases n,
{
    if n <= 0 {
        Seq::empty()
    } else {
        let field = crate::msmarco::records::field_name(n - 1);
        cap_lines(measured, n - 1) + match measured_for(measured, field) {
            Some(m) => field_lines(
                field,
                crate::msmarco::records::field_kind(n - 1),
                m as nat,
            ),
            None => Seq::empty(),
        }
    }
}

/// The largest size measured for a field.
fn look_up(measured: &[(String, usize)], field: &str) -> (r: Option<usize>)
    ensures
        r == measured_for(measured@, field@),
{
    let mut i: usize = 0;
    assert(measured@.skip(0) =~= measured@);
    while i < measured.len()
        invariant
            i <= measured@.len(),
            measured_for(measured@, field@) == measured_for(measured@.skip(i as int), field@),
        decreases measured@.len() - i,
    {
        assert(measured@.skip(i as int).skip(1) =~= measured@.skip(i + 1));
        if same_text(measured[i].0.as_str(), field) {
            return Some(measured[i].1);
        }
        i += 1;
    }
    None
}

/// What is said of a field that is too large for an engine.
fn new_cap_line(field: &str, kind: &str, measured: usize, engine: &str, cap: u64) -> (r: String)
    ensures
        r@ == cap_line(field@, kind@, measured as nat, engine@, cap as nat),
{
    let mut r: String = field.to_owned();
    r.append(" (");
    r.append(kind);
    r.append(") reaches ");
    r.append(decimal_text(measured as u64).as_str());
    r.append(" bytes, above the ");
    r.append(engine);
    r.append(" cap of ");
    r.append(decimal_text(cap).as_str());
    r.append(" — that engine will REJECT inserts for this dataset");
    r
}

/// Which fields are larger than an engine takes, field by field and engine by engine. `measured`
/// holds the largest size of each field.
pub fn cap_violations(measured: &[(String, usize)]) -> (r: Vec<String>)
    ensures
        text::texts_view(r@) == cap_lines(measured@, 7),
{
    let names: Vec<&'static str> = payload_field_names();
    let mut out: Vec<String> = Vec::new();
    let mut i: usize = 0;
    assert(text::texts_view(out@) =~= cap_lines(measured@, 0));
    while i < names.len()
        invariant
            i <= names@.len(),
            names@.len() == 7,
            forall|j: int|
                0 <= j < 7 ==> (#[trigger] names@[j])@ == crate::msmarco::records::field_name(j),
            text::texts_view(out@) == cap_lines(measured@, i as int),
        decreases names@.len() - i,
    {
        let ghost before = text::texts_view(out@);
        let field: &str = names[i];
        let kind: &str = field_type(i);
        if let Some(m) = look_up(measured, field) {
            let ghost mut lines: Seq<Seq<char>> = Seq::empty();
            if (same_text(kind, "keyword") || same_text(kind, "text") || same_text(kind, "uuid"))
                && m > 65_535 {
                let line: String = new_cap_line(field, kind, m, "Milvus VarChar", 65_535);
                proof {
                    lines = lines.push(line@);
                }
                out.push(line);
                assert(text::texts_view(out@) =~= before + lines);
            }
            assert(text::texts_view(out@) =~= before + lines);
            if same_text(kind, "keyword") && m > 32_766 {
                let line: String = new_cap_line(
                    field,
                    kind,
                    m,
                    "Elasticsearch/OpenSearch keyword term",
                    32_766,
                );
                let ghost sofar = text::texts_view(out@);
                proof {
                    lines = lines.push(line@);
                }
                out.push(line);
                assert(text::texts_view(out@) =~= sofar.push(line@));
            }
            assert(lines =~= field_lines(field@, kind@, m as nat));
            assert(text::texts_view(out@) =~= before + lines);
        }
        assert(text::texts_view(out@) =~= cap_lines(measured@, i + 1));
        i += 1;
    }
    out
}

/// The outcome of the cross-check of one query: how many positions were compared, the bit pattern of
/// the largest difference of scores, and how many positions hold another passage with the same score.
#[derive(Debug, Clone, Copy, PartialEq, Eq, Structural)]
pub struct HeadCheck {
    pub compared: usize,
    pub max_score_delta: u32,
    pub tie_swaps: usize,
}

/// What is known of one position of both rankings: the bit pattern of the absolute difference of the
/// two scores, and the texts that show the scores and the difference.
pub struct ScoreGap {
    pub delta: u32,
    pub ours_shown: String,
    pub shipped_shown: String,
    pub delta_shown: String,
}

/// What is wrong with position `i` of the rankings, where something is.
pub open spec fn position_error(
    i: int,
    ours: (u32, i64),
    shipped: (i64, Seq<char>, u32),
    gap: ScoreGap,
    docid: Option<Seq<char>>,
    tol: u32,
    tol_shown: Seq<char>,
) -> Option<Seq<char>> {
    if ours.1 != shipped.0 && !float_bits::at_most32(gap.delta, tol) {
        Some(
            "rank "@ + text::decimal(i as nat) + ": brute force put id "@ + text::signed_decimal(
                ours.1 as int,
            ) + " (cosine "@ + gap.ours_shown@ + ") where the shipped global top-1k has id "@
                + text::signed_decimal(shipped.0 as int) + " (cosine "@ + gap.shipped_shown@
                + "); the gap of "@ + gap.delta_shown@ + " exceeds the "@ + tol_shown
                + " tolerance, so this is a wrong ranking, not a tie"@,
        )
    } else if ours.1 == shipped.0 && float_bits::less32(tol, gap.delta) {
        Some(
            "rank "@ + text::decimal(i as nat) + ": id "@ + text::signed_decimal(ours.1 as int)
                + " scores "@ + gap.ours_shown@ + " here but "@ + gap.shipped_shown@
                + " in the shipped top-1k (delta "@ + gap.delta_shown@ + " > "@ + tol_shown
                + ") — the vector at that offset is not the one HF scored"@,
        )
    } else {
        match docid {
            Some(d) => if d != shipped.1 {
                Some(
                    "offset "@ + text::signed_decimal(shipped.0 as int)
                        + " carries payload docid "@ + text::debug_shown(d)
                        + " but the shipped top-1k calls it "@ + text::debug_shown(shipped.1)
                        + " — the npy rows and the json.gz lines are misaligned, so every passage holds another passage's metadata"@,
                )
            } else {
                None
            },
            None => None,
        }
    }
}

/// The identifier that the prepared metadata has for a passage.
pub open spec fn docid_of(docid_at: Map<i64, String>, offset: i64) -> Option<Seq<char>> {
    if docid_at.dom().contains(offset) {
        Some(docid_at[offset]@)
    } else {
        None
    }
}

/// The outcome for the first `n` positions: the first one with something wrong, or the counts.
pub open spec fn checked(
    ranked: Seq<(u32, i64)>,
    hits: Seq<(i64, Seq<char>, u32)>,
    gaps: Seq<ScoreGap>,
    docid_at: Map<i64, String>,
    tol: u32,
    tol_shown: Seq<char>,
    n: int,
) -> Result<(u32, nat), Seq<char>>
    decreases n,
{
    if n <= 0 {
        Ok((0, 0))
    } else {
        match checked(ranked, hits, gaps, docid_at, tol, tol_shown, n - 1) {
            Err(e) => Err(e),
            Ok((largest, swaps)) => match position_error(
                n - 1,
                ranked[n - 1],
                hits[n - 1],
                gaps[n - 1],
                docid_of(docid_at, hits[n - 1].0),
                tol,
                tol_shown,
            ) {
                Some(e) => Err(e),
                None => Ok(
                    (
                        if float_bits::less32(largest, gaps[n - 1].delta) {
                            gaps[n - 1].delta
                        } else {
                            largest
                        },
                        if ranked[n - 1].1 != hits[n - 1].0 {
                            swaps + 1
                        } else {
                            swaps
                        },
                    ),
                ),
            },
        }
    }
}

/// An error among the first positions is the error of all.
proof fn lemma_checked_prefix(
    ranked: Seq<(u32, i64)>,
    hits: Seq<(i64, Seq<char>, u32)>,
    gaps: Seq<ScoreGap>,
    docid_at: Map<i64, String>,
    tol: u32,
    tol_shown: Seq<char>,
    n: int,
    all: int,
)
    requires
        0 <= n <= all,
        checked(ranked, hits, gaps, docid_at, tol, tol_shown, n) is Err,
    ensures
        checked(ranked, hits, gaps, docid_at, tol, tol_shown, all) == checked(
            ranked,
            hits,
            gaps,
            docid_at,
            tol,
            tol_shown,
            n,
        ),
    decreases all - n,
{
    if n < all {
        lemma_checked_prefix(ranked, hits, gaps, docid_at, tol, tol_shown, n, all - 1);
    }
}

/// What is wrong with one position of the rankings.
fn check_position(
    i: usize,
    ours: (u32, i64),
    shipped: &(i64, String, u32),
    gap: &ScoreGap,
    docid: Option<&String>,
    tol: u32,
    tol_shown: &str,
) -> (r: Option<String>)
    ensures
        match position_error(
            i as int,
            ours,
            (shipped.0, shipped.1@, shipped.2),
            *gap,
            match docid {
                Some(d) => Some(d@),
                None => None,
            },
            tol,
            tol_shown@,
        ) {
            Some(e) => r matches Some(m) && m@ == e,
            None => r is None,
        },
{
    if ours.1 != shipped.0 {
        if !not_above32(gap.delta, tol) {
            let mut e: String = "rank ".to_owned();
            e.append(decimal_text(i as u64).as_str());
            e.append(": brute force put id ");
            e.append(signed_decimal_text(ours.1).as_str());
            e.append(" (cosine ");
            e.append(gap.ours_shown.as_str());
            e.append(") where the shipped global top-1k has id ");
            e.append(signed_decimal_text(shipped.0).as_str());
            e.append(" (cosine ");
            e.append(gap.shipped_shown.as_str());
            e.append("); the gap of ");
            e.append(gap.delta_shown.as_str());
            e.append(" exceeds the ");
            e.append(tol_shown);
            e.append(" tolerance, so this is a wrong ranking, not a tie");
            return Some(e);
        }
    } else if below32(tol, gap.delta) {
        let mut e: String = "rank ".to_owned();
        e.append(decimal_text(i as u64).as_str());
        e.append(": id ");
        e.append(signed_decimal_text(ours.1).as_str());
        e.append(" scores ");
        e.append(gap.ours_shown.as_str());
        e.append(" here but ");
        e.append(gap.shipped_shown.as_str());
        e.append(" in the shipped top-1k (delta ");
        e.append(gap.delta_shown.as_str());
        e.append(" > ");
        e.append(tol_shown);
        e.append(") — the vector at that offset is not the one HF scored");
        return Some(e);
    }
    if let Some(d) = docid {
        if !same_text(d.as_str(), shipped.1.as_str()) {
            let mut e: String = "offset ".to_owned();
            e.append(signed_decimal_text(shipped.0).as_str());
            e.append(" carries payload docid ");
            e.append(debug_text(d.as_str()).as_str());
            e.append(" but the shipped top-1k calls it ");
            e.append(debug_text(shipped.1.as_str()).as_str());
            e.append(
                " — the npy rows and the json.gz lines are misaligned, so every passage holds another passage's metadata",
            );
            return Some(e);
        }
    }
    None
}

/// Checks the head of a ranking against the shipped hits, position by position, as far as both go.
/// Another passage is accepted only where the two scores differ by at most the tolerance; the same
/// passage must have the same score; and the metadata must name the passage as the shipped hits do.
pub fn verify_head_against_shipped(
    ranked: &[(u32, i64)],
    hits: &InPrefixHits,
    gaps: &[ScoreGap],
    docid_at: &HashMap<i64, String>,
    tol: u32,
    tol_shown: &str,
) -> (r: Result<HeadCheck, String>)
    requires
        gaps@.len() >= ranked@.len() || gaps@.len() >= hits.hits@.len(),
    ensures
        ({
            let n = if ranked@.len() < hits.hits@.len() {
                ranked@.len() as int
            } else {
                hits.hits@.len() as int
            };
            match checked(ranked@, hits_view(hits.hits@), gaps@, docid_at@, tol, tol_shown@, n) {
                Ok((largest, swaps)) => r matches Ok(c) && c.compared == n && c.max_score_delta
                    == largest && c.tie_swaps == swaps,
                Err(e) => r matches Err(m) && m@ == e,
            }
        }),
{
    broadcast use vstd::std_specs::hash::group_hash_axioms;

    let compared: usize = if ranked.len() < hits.hits.len() {
        ranked.len()
    } else {
        hits.hits.len()
    };
    let ghost views = hits_view(hits.hits@);
    let mut largest: u32 = 0;
    let mut swaps: usize = 0;
    let mut i: usize = 0;
    while i < compared
        invariant
            i <= compared,
            compared <= ranked@.len(),
            compared <= hits.hits@.len(),
            compared <= gaps@.len(),
            compared == ranked@.len() || compared == hits.hits@.len(),
            views == hits_view(hits.hits@),
            swaps <= i,
            checked(ranked@, views, gaps@, docid_at@, tol, tol_shown@, i as int) matches Ok(found)
                && found == (largest, swaps as nat),
        decreases compared - i,
    {
        broadcast use vstd::std_specs::hash::group_hash_axioms;

        let shipped: &(i64, String, u32) = &hits.hits[i];
        assert(views[i as int] == (shipped.0, shipped.1@, shipped.2));
        let docid: Option<&String> = docid_at.get(&shipped.0);
        match check_position(i, ranked[i], shipped, &gaps[i], docid, tol, tol_shown) {
            Some(e) => {
                proof {
                    lemma_checked_prefix(
                        ranked@,
                        views,
                        gaps@,
                        docid_at@,
                        tol,
                        tol_shown@,
                        i + 1,
                        compared as int,
                    );
                }
                return Err(e);
            },
            None => {},
        }
        if ranked[i].1 != shipped.0 {
            swaps += 1;
        }
        if below32(largest, gaps[i].delta) {
            largest = gaps[i].delta;
        }
        i += 1;
    }
    Ok(HeadCheck { compared, max_score_delta: largest, tie_swaps: swaps })
}

/// Every position of a ranking that passes holds the shipped passage with a score that is not further
/// off than the tolerance, or another passage whose score is within it.
pub proof fn a_passed_head_agrees(
    ranked: Seq<(u32, i64)>,
    hits: Seq<(i64, Seq<char>, u32)>,
    gaps: Seq<ScoreGap>,
    docid_at: Map<i64, String>,
    tol: u32,
    tol_shown: Seq<char>,
    n: int,
    i: int,
)
    requires
        checked(ranked, hits, gaps, docid_at, tol, tol_shown, n) is Ok,
        0 <= i < n,
    ensures
        ranked[i].1 != hits[i].0 ==> float_bits::at_most32(gaps[i].delta, tol),
        ranked[i].1 == hits[i].0 ==> !float_bits::less32(tol, gaps[i].delta),
        docid_of(docid_at, hits[i].0) matches Some(d) ==> d == hits[i].1,
    decreases n,
{
    if i < n - 1 {
        a_passed_head_agrees(ranked, hits, gaps, docid_at, tol, tol_shown, n - 1, i);
    }
}

} // verus!
