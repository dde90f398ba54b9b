//! What the plan of a run promises: which engines, datasets and searches it takes, in which order, and
//! what it says of itself.
use vstd::prelude::*;

use crate::experiment::agenda::{self, AgendaView};
use crate::experiment::plan::{self, IndexClaim, Point, RunOptions, Scores, UpdateSearchRatio, WarmUp};
use crate::experiment::results::SearchParams;
use crate::float_bits;
use crate::json::{self, JsonView};
use crate::text;

verus! {

/// The places that are marked, each once and ascending, and no others.
pub proof fn what_is_marked_is_taken(marks: Seq<bool>, n: int)
    requires
        0 <= n <= marks.len(),
    ensures
        forall|i: int| #[trigger]
            plan::marked(marks, n).contains(i) <==> 0 <= i < n && marks[i],
        forall|k: int, l: int|
            0 <= k < l < plan::marked(marks, n).len() ==> #[trigger] plan::marked(marks, n)[k]
                < #[trigger] plan::marked(marks, n)[l],
    decreases n,
{
    if n > 0 {
        what_is_marked_is_taken(marks, n - 1);
        let earlier = plan::marked(marks, n - 1);
        let now = plan::marked(marks, n);
        assert forall|k: int| 0 <= k < earlier.len() implies #[trigger] earlier[k] < n - 1 by {
            assert(earlier.contains(earlier[k]));
        }
        if marks[n - 1] {
            assert forall|i: int| #[trigger] now.contains(i) <==> 0 <= i < n && marks[i] by {
                if earlier.contains(i) {
                    let k = choose|k: int| 0 <= k < earlier.len() && earlier[k] == i;
                    assert(now[k] == i);
                }
                if i == n - 1 {
                    assert(now[earlier.len() as int] == i);
                }
                if now.contains(i) && i != n - 1 {
                    let k = choose|k: int| 0 <= k < now.len() && now[k] == i;
                    assert(earlier[k] == i);
                }
            }
        }
    }
}

/// An engine is taken where it is asked for and of a supported type, and only there.
pub proof fn engines_that_are_asked_for_are_taken(entries: Seq<plan::EngineEntry>, i: int)
    requires
        0 <= i < entries.len(),
    ensures
        plan::marked(plan::engine_marks(entries), entries.len() as int).contains(i) <==> (
        entries[i].engine matches Some(t) && plan::supported(t@)) && entries[i].wanted,
{
    what_is_marked_is_taken(plan::engine_marks(entries), entries.len() as int);
    reveal_strlit("");
    reveal_strlit("redis");
    assert("redis"@.len() == 5);
    reveal_strlit("vectorsets");
    assert("vectorsets"@.len() == 10);
    reveal_strlit("elasticsearch");
    assert("elasticsearch"@.len() == 13);
    reveal_strlit("opensearch");
    assert("opensearch"@.len() == 10);
    reveal_strlit("qdrant");
    assert("qdrant"@.len() == 6);
    reveal_strlit("weaviate");
    assert("weaviate"@.len() == 8);
    reveal_strlit("pgvector");
    assert("pgvector"@.len() == 8);
    reveal_strlit("milvus");
    assert("milvus"@.len() == 6);
    reveal_strlit("mongodb");
    assert("mongodb"@.len() == 7);
    reveal_strlit("valkey");
    assert("valkey"@.len() == 6);
    reveal_strlit("turbopuffer");
    assert("turbopuffer"@.len() == 11);
    reveal_strlit("dragonfly");
    assert("dragonfly"@.len() == 9);
    reveal_strlit("kividb");
    assert("kividb"@.len() == 6);
    reveal_strlit("vertex");
    assert("vertex"@.len() == 6);
    reveal_strlit("chroma");
    assert("chroma"@.len() == 6);
}

/// A ratio that is written with a colon between two numbers is read as those numbers.
pub proof fn ratios_are_read_as_they_are_written(updates: u64, searches: u64)
    requires
        searches > 0,
    ensures
        plan::read_ratio(
            text::decimal(updates as nat) + seq![':'] + text::decimal(searches as nat),
        ) == Ok::<UpdateSearchRatio, Seq<char>>(UpdateSearchRatio { updates, searches }),
{
    let a = text::decimal(updates as nat);
    let b = text::decimal(searches as nat);
    text::decimal_reads_back(updates as nat);
    text::decimal_reads_back(searches as nat);
    assert(!a.contains(':')) by {
        if a.contains(':') {
            let at = choose|at: int| 0 <= at < a.len() && a[at] == ':';
            assert(text::is_digit(a[at]));
        }
    }
    assert(!b.contains(':')) by {
        if b.contains(':') {
            let at = choose|at: int| 0 <= at < b.len() && b[at] == ':';
            assert(text::is_digit(b[at]));
        }
    }
    text::two_parts_are_told_apart(a, b, ':');
}

/// A ratio without a search is not accepted, and neither is what has another number of parts.
pub proof fn a_ratio_has_a_search(s: Seq<char>)
    ensures
        plan::read_ratio(s) matches Ok(r) ==> r.searches > 0 && s.contains(':'),
{
    let parts = text::parted(s, ':');
    if plan::read_ratio(s) is Ok {
        text::parts_join_to_the_text(s, ':');
        let front = parts.drop_last();
        assert(front.len() == 1);
        assert(text::joined(front, seq![':']) == front[0]);
        assert(s[front[0].len() as int] == ':');
    }
}

/// An inserted ratio is one of the list, and all of the list stays.
proof fn lemma_inserted_holds(list: Seq<UpdateSearchRatio>, r: UpdateSearchRatio, x: UpdateSearchRatio)
    ensures
        plan::inserted(list, r).contains(x) <==> list.contains(x) || x == r,
    decreases list.len(),
{
    let now = plan::inserted(list, r);
    if list.len() == 0 {
        assert(now[0] == r);
    } else if plan::fewer_updates(r, list.last()) {
        let front = list.drop_last();
        lemma_inserted_holds(front, r, x);
        let put = plan::inserted(front, r);
        assert(now == put.push(list.last()));
        if put.contains(x) {
            let k = choose|k: int| 0 <= k < put.len() && put[k] == x;
            assert(now[k] == x);
        }
        if front.contains(x) {
            let k = choose|k: int| 0 <= k < front.len() && front[k] == x;
            assert(list[k] == x);
        }
        if list.contains(x) {
            let k = choose|k: int| 0 <= k < list.len() && list[k] == x;
            if k < front.len() {
                assert(front[k] == x);
            } else {
                assert(now[put.len() as int] == x);
            }
        }
        if now.contains(x) {
            let k = choose|k: int| 0 <= k < now.len() && now[k] == x;
            if k < put.len() {
                assert(put[k] == x);
            } else {
                assert(list[list.len() - 1] == x);
            }
        }
    } else {
        assert(now[list.len() as int] == r);
        if list.contains(x) {
            let k = choose|k: int| 0 <= k < list.len() && list[k] == x;
            assert(now[k] == x);
        }
        if now.contains(x) && x != r {
            let k = choose|k: int| 0 <= k < now.len() && now[k] == x;
            assert(list[k] == x);
        }
    }
}

/// The ratios with updates among the first `n` are those that were asked for.
proof fn lemma_mixed_holds(ratios: Seq<UpdateSearchRatio>, n: int, r: UpdateSearchRatio)
    requires
        0 <= n <= ratios.len(),
    ensures
        plan::mixed_ratios(ratios, n).contains(r) <==> r.updates > 0 && ratios.take(n).contains(r),
    decreases n,
{
    if n > 0 {
        lemma_mixed_holds(ratios, n - 1, r);
        let now = ratios.take(n);
        let earlier = ratios.take(n - 1);
        assert(now =~= earlier.push(ratios[n - 1]));
        if earlier.contains(r) {
            let k = choose|k: int| 0 <= k < earlier.len() && earlier[k] == r;
            assert(now[k] == r);
        }
        if now.contains(r) {
            let k = choose|k: int| 0 <= k < now.len() && now[k] == r;
            if k < n - 1 {
                assert(earlier[k] == r);
            }
        }
        assert(now[n - 1] == ratios[n - 1]);
        if ratios[n - 1].updates != 0 {
            lemma_inserted_holds(plan::mixed_ratios(ratios, n - 1), ratios[n - 1], r);
        }
    }
}

/// Every ratio with updates that is asked for is a phase, and no other; a search without updates is the
/// first phase where one is asked for or nothing is, and no phase otherwise.
pub proof fn phases_are_what_is_asked_for(ratios: Seq<UpdateSearchRatio>, r: UpdateSearchRatio)
    ensures
        plan::phases_of(ratios).contains(Some(r)) <==> r.updates > 0 && ratios.contains(r),
        ratios.len() == 0 ==> plan::phases_of(ratios) == seq![None::<UpdateSearchRatio>],
        ratios.contains(r) && r.updates == 0 ==> plan::phases_of(ratios)[0] is None,
        forall|k: int|
            1 <= k < plan::phases_of(ratios).len() ==> (#[trigger] plan::phases_of(ratios)[k]) is Some,
        ratios.len() > 0 && (forall|i: int| 0 <= i < ratios.len() ==> (#[trigger] ratios[i]).updates > 0)
            ==> forall|k: int|
            0 <= k < plan::phases_of(ratios).len() ==> (#[trigger] plan::phases_of(ratios)[k]) is Some,
{
    let n = ratios.len() as int;
    lemma_mixed_holds(ratios, n, r);
    assert(ratios.take(n) =~= ratios);
    let mixed = plan::mixed_ratios(ratios, n);
    let rest = Seq::new(mixed.len(), |i: int| Some(mixed[i]));
    let phases = plan::phases_of(ratios);
    if ratios.len() > 0 {
        let first: int = if plan::has_pure_search(ratios, n) {
            1
        } else {
            0
        };
        assert(phases.len() == first + rest.len());
        assert forall|k: int| first <= k < phases.len() implies #[trigger] phases[k] == Some(
            mixed[k - first],
        ) by {}
        if mixed.contains(r) {
            let k = choose|k: int| 0 <= k < mixed.len() && mixed[k] == r;
            assert(phases[first + k] == Some(r));
        }
        if phases.contains(Some(r)) {
            let k = choose|k: int| 0 <= k < phases.len() && phases[k] == Some(r);
            assert(k >= first);
            assert(mixed[k - first] == r);
        }
        if ratios.contains(r) && r.updates == 0 {
            let i = choose|i: int| 0 <= i < ratios.len() && ratios[i] == r;
            assert(ratios[i].updates == 0);
        }
    }
}

/// The searches of a phase are those that are made, each once and in their order.
proof fn lemma_phase_points(
    params: Seq<SearchParams>,
    n: int,
    a: RunOptions,
    phase: Option<UpdateSearchRatio>,
)
    requires
        0 <= n <= params.len() <= usize::MAX,
    ensures
        forall|k: int|
            0 <= k < plan::phase_points(params, n, a, phase).len() ==> {
                let p = #[trigger] plan::phase_points(params, n, a, phase)[k];
                p.phase == phase && p.search_id < n && plan::is_made(params, p.search_id as int, a)
            },
        forall|i: int|
            0 <= i < n && #[trigger] plan::is_made(params, i, a) ==> plan::phase_points(
                params,
                n,
                a,
                phase,
            ).contains(Point { phase, search_id: i as usize }),
        forall|k: int, l: int|
            0 <= k < l < plan::phase_points(params, n, a, phase).len() ==> (
            #[trigger] plan::phase_points(params, n, a, phase)[k]).search_id < (
            #[trigger] plan::phase_points(params, n, a, phase)[l]).search_id,
    decreases n,
{
    if n > 0 {
        lemma_phase_points(params, n - 1, a, phase);
        let earlier = plan::phase_points(params, n - 1, a, phase);
        let now = plan::phase_points(params, n, a, phase);
        assert forall|i: int| 0 <= i < n && #[trigger] plan::is_made(params, i, a) implies now.contains(
            Point { phase, search_id: i as usize },
        ) by {
            let p = Point { phase, search_id: i as usize };
            if i < n - 1 {
                assert(earlier.contains(p));
                let k = choose|k: int| 0 <= k < earlier.len() && earlier[k] == p;
                assert(now[k] == p);
            } else {
                assert(now[earlier.len() as int] == p);
            }
        }
    }
}

/// What stands in one of two lists stands in both together.
proof fn lemma_in_both(a: Seq<Point>, b: Seq<Point>, p: Point)
    ensures
        (a + b).contains(p) <==> a.contains(p) || b.contains(p),
{
    let both = a + b;
    if a.contains(p) {
        let k = choose|k: int| 0 <= k < a.len() && a[k] == p;
        assert(both[k] == p);
    }
    if b.contains(p) {
        let k = choose|k: int| 0 <= k < b.len() && b[k] == p;
        assert(both[a.len() + k] == p);
    }
    if both.contains(p) {
        let k = choose|k: int| 0 <= k < both.len() && both[k] == p;
        if k < a.len() {
            assert(a[k] == p);
        } else {
            assert(b[k - a.len()] == p);
        }
    }
}

/// A search of the first `k` phases is one of a phase that is made.
proof fn lemma_all_points(
    phases: Seq<Option<UpdateSearchRatio>>,
    k: int,
    params: Seq<SearchParams>,
    a: RunOptions,
    p: Point,
)
    requires
        0 <= k <= phases.len(),
        params.len() <= usize::MAX,
    ensures
        plan::all_points(phases, k, params, a).contains(p) <==> p.search_id < params.len()
            && phases.take(k).contains(p.phase) && !(a.skip_vector_index && p.phase is Some)
            && plan::is_made(params, p.search_id as int, a),
    decreases k,
{
    if k > 0 {
        lemma_all_points(phases, k - 1, params, a, p);
        let phase = phases[k - 1];
        let now = phases.take(k);
        let earlier = phases.take(k - 1);
        assert(now =~= earlier.push(phase));
        assert(now[k - 1] == phase);
        if earlier.contains(p.phase) {
            let j = choose|j: int| 0 <= j < earlier.len() && earlier[j] == p.phase;
            assert(now[j] == p.phase);
        }
        if now.contains(p.phase) {
            let j = choose|j: int| 0 <= j < now.len() && now[j] == p.phase;
            if j < k - 1 {
                assert(earlier[j] == p.phase);
            }
        }
        let points = plan::phase_points(params, params.len() as int, a, phase);
        lemma_phase_points(params, params.len() as int, a, phase);
        lemma_in_both(plan::all_points(phases, k - 1, params, a), points, p);
        if points.contains(p) {
            let j = choose|j: int| 0 <= j < points.len() && points[j] == p;
            assert(points[j].phase == phase);
        }
        if p.phase == phase && p.search_id < params.len() && plan::is_made(
            params,
            p.search_id as int,
            a,
        ) {
            assert(points.contains(Point { phase, search_id: (p.search_id as int) as usize }));
        }
    }
}

/// With an index over vectors a search is made in every phase where its number of clients is asked for,
/// or none is, and its breadth is, or none is or it has none; and otherwise in no phase.
pub proof fn searches_that_are_asked_for_are_made(
    phases: Seq<Option<UpdateSearchRatio>>,
    params: Seq<SearchParams>,
    a: RunOptions,
    p: Point,
)
    requires
        params.len() <= usize::MAX,
        p.search_id < params.len(),
        !a.skip_vector_index,
    ensures
        ({
            let s = params[p.search_id as int];
            let parallel = match s.parallel {
                Some(n) => n,
                None => 1,
            };
            plan::all_points(phases, phases.len() as int, params, a).contains(p) <==> {
                &&& phases.contains(p.phase)
                &&& a.parallels@.len() == 0 || a.parallels@.contains(parallel as i32)
                &&& a.ef_runtime@.len() == 0 || s.search_params is None
                    || s.search_params->Some_0.ef is None || a.ef_runtime@.contains(
                    s.search_params->Some_0.ef->Some_0,
                )
            }
        }),
{
    lemma_all_points(phases, phases.len() as int, params, a, p);
    assert(phases.take(phases.len() as int) =~= phases);
}

/// Without an index over vectors the first search of every number of clients that is asked for is made,
/// once, without updates, whatever its breadth.
pub proof fn one_search_for_each_number_of_clients_is_enough(
    phases: Seq<Option<UpdateSearchRatio>>,
    params: Seq<SearchParams>,
    a: RunOptions,
    p: Point,
    j: int,
)
    requires
        params.len() <= usize::MAX,
        p.search_id < params.len(),
        0 <= j < p.search_id,
        a.skip_vector_index,
    ensures
        plan::all_points(phases, phases.len() as int, params, a).contains(p) ==> p.phase is None
            && plan::clients(params[j]) != plan::clients(params[p.search_id as int]) && (
        a.parallels@.len() > 0 ==> a.parallels@.contains(
            plan::clients(params[p.search_id as int]) as i32,
        )),
        phases.contains(None) && a.parallels@.len() == 0 ==> plan::all_points(
            phases,
            phases.len() as int,
            params,
            a,
        ).contains(Point { phase: None, search_id: 0 }),
{
    lemma_all_points(phases, phases.len() as int, params, a, p);
    lemma_all_points(
        phases,
        phases.len() as int,
        params,
        a,
        Point { phase: None, search_id: 0 },
    );
    assert(phases.take(phases.len() as int) =~= phases);
}

/// The searches of a phase come before those of a later one, and within a phase in the order of their
/// parameters.
pub proof fn searches_are_made_phase_by_phase(
    phases: Seq<Option<UpdateSearchRatio>>,
    k: int,
    params: Seq<SearchParams>,
    a: RunOptions,
    x: int,
    y: int,
)
    requires
        0 < k <= phases.len(),
        params.len() <= usize::MAX,
        plan::all_points(phases, k - 1, params, a).len() <= x < y < plan::all_points(
            phases,
            k,
            params,
            a,
        ).len(),
    ensures
        plan::all_points(phases, k - 1, params, a).is_prefix_of(
            plan::all_points(phases, k, params, a),
        ),
        plan::all_points(phases, k, params, a)[x].phase == phases[k - 1],
        plan::all_points(phases, k, params, a)[x].search_id < plan::all_points(
            phases,
            k,
            params,
            a,
        )[y].search_id,
{
    lemma_phase_points(params, params.len() as int, a, phases[k - 1]);
    let earlier = plan::all_points(phases, k - 1, params, a);
    let points = plan::phase_points(params, params.len() as int, a, phases[k - 1]);
    assert(plan::all_points(phases, k, params, a) == earlier + points);
    assert((earlier + points)[x] == points[x - earlier.len()]);
    assert((earlier + points)[y] == points[y - earlier.len()]);
}

/// Repetitions are told apart by what was asked for: at a set rate the one that dropped fewer requests is
/// the better one whatever its rate, and otherwise the one with the higher rate whatever it dropped. Which
/// of three is the best does not depend on the order in which they are compared.
pub proof fn the_better_repetition_wins(a: Scores, b: Scores, c: Scores, open_loop: bool)
    ensures
        open_loop && a.dropped_queries < b.dropped_queries ==> plan::beats(a, b, open_loop),
        open_loop && a.dropped_queries == b.dropped_queries && (a.end_to_end_p95 matches Some(x) && (
        b.end_to_end_p95 matches Some(y) && float_bits::less64(x, y))) ==> plan::beats(
            a,
            b,
            open_loop,
        ),
        open_loop && a.dropped_queries == b.dropped_queries && a.end_to_end_p95 is None ==> !plan::beats(
            a,
            b,
            open_loop,
        ),
        open_loop && a.dropped_queries == b.dropped_queries && b.end_to_end_p95 is None && (
        a.end_to_end_p95 matches Some(x) && float_bits::is_finite64(x)) ==> plan::beats(
            a,
            b,
            open_loop,
        ),
        !open_loop && float_bits::less64(b.rps, a.rps) ==> plan::beats(a, b, open_loop),
        !open_loop && float_bits::at_most64(a.rps, b.rps) ==> !plan::beats(a, b, open_loop),
        plan::beats(a, b, open_loop) && plan::beats(b, c, open_loop) ==> plan::beats(a, c, open_loop),
{
}

/// Options that are accepted can be run: every duration and rate is a finite number that is not below
/// zero, a rate comes with a duration and without updates, and a warm-up with either.
pub proof fn accepted_options_can_be_run(a: RunOptions)
    ensures
        plan::options_error(a) is None ==> {
            &&& float_bits::at_most64(0, a.search_duration) && float_bits::is_finite64(a.search_duration)
            &&& float_bits::less64(0, a.target_qps) ==> float_bits::is_finite64(a.target_qps)
                && float_bits::less64(0, a.search_duration) && !a.skip_vector_index
                && a.update_search_ratio@.len() == 0 && float_bits::at_most64(0, a.warmup_seconds)
                && float_bits::at_most64(0, a.max_lateness_ms)
            &&& !float_bits::less64(a.target_qps, 0) && !float_bits::is_nan64(a.target_qps)
            &&& float_bits::less64(0, a.warmup_seconds) ==> float_bits::less64(0, a.search_duration)
        },
        a.target_qps == 0 && a.warmup_seconds == 0 && float_bits::at_most64(0, a.search_duration)
            && float_bits::is_finite64(a.search_duration) ==> plan::options_error(a) is None,
        a.target_qps == 0 && float_bits::less64(0, a.search_duration) && float_bits::is_finite64(
            a.search_duration,
        ) ==> plan::options_error(a) is None,
        float_bits::less64(0, a.target_qps) && float_bits::is_finite64(a.target_qps)
            && float_bits::less64(0, a.search_duration) && float_bits::is_finite64(a.search_duration)
            && a.warmup_seconds == 0 && a.max_lateness_ms == 0 && !a.skip_vector_index
            && a.update_search_ratio@.len() == 0 ==> plan::options_error(a) is None,
{
}

/// A search that runs for a set duration is made once. Another is made as often as is asked for, and once
/// where that is never.
pub proof fn searches_are_repeated_as_asked(a: RunOptions)
    ensures
        float_bits::less64(0, a.search_duration) ==> plan::repeats(a) == 1,
        float_bits::at_most64(a.search_duration, 0) && a.repetitions > 0 ==> plan::repeats(a)
            == a.repetitions,
        a.repetitions == 0 ==> plan::repeats(a) == 1,
{
}

/// A server is warmed up where a duration is set for it and the search has a rate or a duration: at the
/// rate where there is one.
pub proof fn servers_are_warmed_up_where_asked(a: RunOptions)
    ensures
        plan::warm_up_of(a) == WarmUp::Nothing <==> !(float_bits::less64(0, a.warmup_seconds) && (
        float_bits::less64(0, a.target_qps) || float_bits::less64(0, a.search_duration))),
        plan::warm_up_of(a) == WarmUp::OpenLoop ==> float_bits::less64(0, a.target_qps),
        plan::warm_up_of(a) == WarmUp::ClosedLoop ==> !float_bits::less64(0, a.target_qps),
{
}

/// Data is deleted where nobody asks for it to be kept, and stays where somebody does: with a reset
/// between configurations that of the last one only.
pub proof fn data_stays_where_asked(a: RunOptions, is_last_config: bool)
    requires
        !a.skip_upload,
    ensures
        !a.keep_data ==> !plan::keeps_data(a, is_last_config),
        a.keep_data && is_last_config ==> plan::keeps_data(a, is_last_config),
        a.keep_data && !is_last_config ==> (plan::keeps_data(a, is_last_config)
            <==> !a.reset_between_configs),
{
}

/// Two configurations of an engine that overwrites are refused where they would write to the same index.
pub proof fn configurations_that_overwrite_are_refused(claims: Seq<IndexClaim>, j: int, i: int)
    requires
        0 <= j < i < claims.len(),
        claims[j].engine matches Some(x) && (claims[i].engine matches Some(y) && x@ == y@
            && plan::index_setting(x@) is Some),
        claims[j].index@ == claims[i].index@,
    ensures
        plan::first_collision(claims, claims.len() as int) is Some,
{
    if plan::first_collision(claims, claims.len() as int) is None {
        plan::checked_claims_are_apart(claims, j, i, claims.len() as int);
    }
}

/// The last claim that collides is one that does.
proof fn lemma_earlier_claim(claims: Seq<IndexClaim>, c: IndexClaim, m: int)
    ensures
        plan::earlier_claim(claims, c, m) matches Some(j) ==> 0 <= j < m && plan::collide(claims[j], c),
    decreases m,
{
    if m > 0 {
        lemma_earlier_claim(claims, c, m - 1);
    }
}

/// What is refused for a collision are two different configurations of one engine with one index, and none
/// before the second collides with another.
pub proof fn what_is_refused_overwrites(claims: Seq<IndexClaim>, n: int)
    requires
        0 <= n <= claims.len(),
    ensures
        plan::first_collision(claims, n) matches Some((j, i)) ==> {
            &&& 0 <= j < i < n
            &&& plan::claim_type(claims[j]) == plan::claim_type(claims[i])
            &&& claims[j].index@ == claims[i].index@
            &&& plan::first_collision(claims, i) is None
        },
    decreases n,
{
    if n > 0 {
        what_is_refused_overwrites(claims, n - 1);
        lemma_earlier_claim(claims, claims[n - 1], n - 1);
    }
}

/// A directory without a slash at its end stays as it is.
proof fn lemma_without_slashes(dir: Seq<char>)
    requires
        dir.len() > 0,
        dir.last() != '/',
    ensures
        plan::without_slashes(dir) == dir,
{
}

/// The home directory is not published: a path in it begins with a tilde in its place, whether or not the
/// home directory is given with a slash at its end, and a path that does not begin with it stays as it is.
pub proof fn home_directories_are_not_published(home: Seq<char>, rest: Seq<char>, other: Seq<char>)
    requires
        home.len() > 0,
        home.last() != '/',
        rest.len() > 0 ==> rest[0] == '/',
        !home.is_prefix_of(other),
    ensures
        plan::tilde_path(home + rest, Some(home)) == seq!['~'] + rest,
        plan::tilde_path(home + rest, Some(home.push('/'))) == seq!['~'] + rest,
        plan::tilde_path(other, Some(home)) == other,
        plan::tilde_path(other, None) == other,
{
    reveal_strlit("~");
    assert("~"@ =~= seq!['~']);
    assert(home.push('/').drop_last() =~= home);
    lemma_without_slashes(home);
    assert(plan::without_slashes(home.push('/')) == plan::without_slashes(home));
    assert((home + rest).take(home.len() as int) =~= home);
    assert((home + rest).skip(home.len() as int) =~= rest);
    if home.len() <= other.len() && other.take(home.len() as int) == home {
        assert(home.is_prefix_of(other));
    }
}

/// A breadth is shown as the number that it is.
pub proof fn breadths_are_shown_as_they_are(p: SearchParams, skip_vector_index: bool)
    ensures
        !skip_vector_index && (p.search_params matches Some(inner) && inner.ef is Some)
            ==> text::parsed_signed(plan::shown_ef(p, skip_vector_index)) == Some(
            p.search_params->Some_0.ef->Some_0 as int,
        ),
{
    if p.search_params is Some && p.search_params->Some_0.ef is Some {
        text::signed_decimal_reads_back(p.search_params->Some_0.ef->Some_0 as int);
    }
}

/// The names of the facts of an invocation are different.
proof fn lemma_invocation_names()
    ensures
        "host"@.len() == 4,
        "allow_partial_configs"@.len() == 21,
        "allow_partial_corpus"@.len() == 20,
        "dump_raw_latencies"@.len() == 18,
        "exit_on_error"@.len() == 13,
        "fail_on_dropped_queries"@.len() == 23,
        "keep_data"@.len() == 9,
        "reset_between_configs"@.len() == 21,
        "skip_if_exists"@.len() == 14,
        "skip_search"@.len() == 11,
        "skip_upload"@.len() == 11,
        "skip_vector_index"@.len() == 17,
        "repetitions"@.len() == 11,
        "warmup_seconds"@.len() == 14,
        "configurations_dir"@.len() == 18,
        "results_dir"@.len() == 11,
        "engines_file"@.len() == 12,
        "allow_partial_configs"@ != "reset_between_configs"@,
        "dump_raw_latencies"@ != "configurations_dir"@,
        "skip_if_exists"@ != "warmup_seconds"@,
        "skip_search"@ != "skip_upload"@,
        "skip_search"@ != "repetitions"@,
        "skip_search"@ != "results_dir"@,
        "skip_upload"@ != "repetitions"@,
        "skip_upload"@ != "results_dir"@,
        "repetitions"@ != "results_dir"@,
{
    reveal_strlit("host");
    reveal_strlit("allow_partial_configs");
    reveal_strlit("allow_partial_corpus");
    reveal_strlit("dump_raw_latencies");
    reveal_strlit("exit_on_error");
    reveal_strlit("fail_on_dropped_queries");
    reveal_strlit("keep_data");
    reveal_strlit("reset_between_configs");
    reveal_strlit("skip_if_exists");
    reveal_strlit("skip_search");
    reveal_strlit("skip_upload");
    reveal_strlit("skip_vector_index");
    reveal_strlit("repetitions");
    reveal_strlit("warmup_seconds");
    reveal_strlit("configurations_dir");
    reveal_strlit("results_dir");
    reveal_strlit("engines_file");
    assert("allow_partial_configs"@[0] != "reset_between_configs"@[0]);
    assert("dump_raw_latencies"@[0] != "configurations_dir"@[0]);
    assert("skip_if_exists"@[0] != "warmup_seconds"@[0]);
    assert("skip_search"@[5] != "skip_upload"@[5]);
    assert("skip_search"@[0] != "repetitions"@[0]);
    assert("skip_search"@[0] != "results_dir"@[0]);
    assert("skip_upload"@[0] != "repetitions"@[0]);
    assert("skip_upload"@[0] != "results_dir"@[0]);
    assert("repetitions"@[2] != "results_dir"@[2]);
}

/// What a run says of its invocation is what it was invoked with, each under its own name.
pub proof fn invocations_are_written_under_their_names(
    a: RunOptions,
    warmup: JsonView,
    configurations_dir: Seq<char>,
    results_dir: Seq<char>,
)
    ensures
        ({
            let document = plan::invocation(a, warmup, configurations_dir, results_dir);
            &&& document.member("engines_file"@) == Some(
                match a.engines_file {
                    Some(f) => JsonView::Text(f@),
                    None => JsonView::Null,
                },
            )
            &&& document.member("host"@) == Some(JsonView::Text(a.host@))
            &&& document.member("allow_partial_configs"@) == Some(JsonView::Bool(a.allow_partial_configs))
            &&& document.member("allow_partial_corpus"@) == Some(JsonView::Bool(a.allow_partial_corpus))
            &&& document.member("dump_raw_latencies"@) == Some(JsonView::Bool(a.dump_raw_latencies))
            &&& document.member("exit_on_error"@) == Some(JsonView::Bool(a.exit_on_error))
            &&& document.member("fail_on_dropped_queries"@) == Some(JsonView::Bool(a.fail_on_dropped_queries))
            &&& document.member("keep_data"@) == Some(JsonView::Bool(a.keep_data))
            &&& document.member("reset_between_configs"@) == Some(JsonView::Bool(a.reset_between_configs))
            &&& document.member("skip_if_exists"@) == Some(JsonView::Bool(a.skip_if_exists))
            &&& document.member("skip_search"@) == Some(JsonView::Bool(a.skip_search))
            &&& document.member("skip_upload"@) == Some(JsonView::Bool(a.skip_upload))
            &&& document.member("skip_vector_index"@) == Some(JsonView::Bool(a.skip_vector_index))
            &&& document.member("repetitions"@) == Some(json::count_view(a.repetitions))
            &&& document.member("warmup_seconds"@) == Some(warmup)
            &&& document.member("configurations_dir"@) == Some(JsonView::Text(configurations_dir))
            &&& document.member("results_dir"@) == Some(JsonView::Text(results_dir))
        }),
{
    broadcast use json::put_then_member;

    lemma_invocation_names();
}

/// Every configuration that is asked for and supported is run; without an index over vectors one of each type
/// is, and two that are run have different types.
pub proof fn configurations_that_are_asked_for_are_run(
    a: RunOptions,
    entries: Seq<plan::EngineEntry>,
    i: int,
)
    requires
        0 <= i < entries.len(),
    ensures
        agenda::kept_engines(a, entries).contains(i) ==> plan::supported(
            plan::type_or(entries[i], ""@),
        ) && entries[i].wanted,
        !a.skip_vector_index && plan::supported(plan::type_or(entries[i], ""@)) && entries[i].wanted
            ==> agenda::kept_engines(a, entries).contains(i),
        a.skip_vector_index && plan::supported(plan::type_or(entries[i], ""@)) && entries[i].wanted
            ==> exists|j: int| #[trigger]
            agenda::kept_engines(a, entries).contains(j) && plan::type_or(entries[j], "unknown"@)
                == plan::type_or(entries[i], "unknown"@),
{
    let chosen = plan::marked(plan::engine_marks(entries), entries.len() as int);
    what_is_marked_is_taken(plan::engine_marks(entries), entries.len() as int);
    let kept = agenda::kept_engines(a, entries);
    if a.skip_vector_index {
        let among = agenda::picked(entries, chosen);
        let first = plan::marked(plan::first_marks(among), among.len() as int);
        what_is_marked_is_taken(plan::first_marks(among), among.len() as int);
        if kept.contains(i) {
            let k = choose|k: int| 0 <= k < kept.len() && kept[k] == i;
            assert(first.contains(first[k]));
            assert(chosen[first[k]] == i);
            assert(chosen.contains(i));
        }
        if plan::supported(plan::type_or(entries[i], ""@)) && entries[i].wanted {
            assert(chosen.contains(i));
            let k = choose|k: int| 0 <= k < chosen.len() && chosen[k] == i;
            let f = first_with_its_type(among, k);
            assert(first.contains(f));
            let l = choose|l: int| 0 <= l < first.len() && first[l] == f;
            assert(kept[l] == chosen[f]);
            assert(kept.contains(chosen[f]));
            assert(among[f] == entries[chosen[f]]);
            assert(among[k] == entries[i]);
        }
    } else {
        assert(chosen.contains(i) <==> plan::engine_marks(entries)[i]);
    }
}

/// The first engine with the type of another.
proof fn first_with_its_type(engines: Seq<plan::EngineEntry>, i: int) -> (k: int)
    requires
        0 <= i < engines.len(),
    ensures
        0 <= k <= i,
        plan::first_of_type(engines, k),
        plan::type_or(engines[k], "unknown"@) == plan::type_or(engines[i], "unknown"@),
{
    if i > 0 {
        plan::dedup_keeps_one_of_each_type(engines, i, 0);
    } else {
        assert(plan::first_of_type(engines, 0));
    }
    choose|k: int|
        0 <= k <= i && #[trigger] plan::first_of_type(engines, k) && plan::type_or(
            engines[k],
            "unknown"@,
        ) == plan::type_or(engines[i], "unknown"@)
}

/// Without an index over vectors no two configurations that are run have the same type.
pub proof fn one_configuration_of_each_type_is_enough(
    a: RunOptions,
    entries: Seq<plan::EngineEntry>,
    k: int,
    l: int,
)
    requires
        a.skip_vector_index,
        0 <= k < l < agenda::kept_engines(a, entries).len(),
    ensures
        plan::type_or(entries[agenda::kept_engines(a, entries)[k]], "unknown"@) != plan::type_or(
            entries[agenda::kept_engines(a, entries)[l]],
            "unknown"@,
        ),
{
    let chosen = plan::marked(plan::engine_marks(entries), entries.len() as int);
    let among = agenda::picked(entries, chosen);
    let first = plan::marked(plan::first_marks(among), among.len() as int);
    what_is_marked_is_taken(plan::first_marks(among), among.len() as int);
    assert(first.contains(first[k]) && first.contains(first[l]));
    assert(first[k] < first[l]);
    assert(plan::first_of_type(among, first[l]));
    assert(among[first[k]] == entries[chosen[first[k]]]);
    assert(among[first[l]] == entries[chosen[first[l]]]);
}

/// A run that is planned takes every dataset that is asked for, and no other, and at least one.
pub proof fn datasets_that_are_asked_for_are_run(
    a: RunOptions,
    wanted: Seq<bool>,
    entries: Seq<plan::EngineEntry>,
    claims: Seq<IndexClaim>,
    i: int,
)
    requires
        0 <= i < wanted.len(),
    ensures
        agenda::planned(a, wanted, entries, claims) matches Ok((datasets, engines)) ==> {
            &&& datasets.contains(i) <==> wanted[i]
            &&& datasets.len() > 0
            &&& engines == agenda::kept_engines(a, entries)
        },
        (forall|j: int| 0 <= j < wanted.len() ==> !#[trigger] wanted[j]) ==> agenda::planned(
            a,
            wanted,
            entries,
            claims,
        ) is Err,
{
    what_is_marked_is_taken(wanted, wanted.len() as int);
    let datasets = plan::marked(wanted, wanted.len() as int);
    if datasets.len() > 0 {
        assert(datasets.contains(datasets[0]));
    }
}

/// Experiments are made dataset by dataset within a configuration, and configuration by configuration: what
/// comes next is the next dataset of the configuration, or the first of the next one.
pub proof fn experiments_are_made_in_order(v: AgendaView)
    requires
        v.valid(),
        v.engine < v.engines.len(),
    ensures
        v.after_one().done == v.done + 1,
        v.dataset + 1 < v.datasets.len() ==> v.after_one().engine == v.engine && v.after_one().dataset
            == v.dataset + 1,
        v.dataset + 1 == v.datasets.len() ==> v.after_one().engine == v.engine + 1
            && v.after_one().dataset == 0,
        v.without_this_engine().engine == v.engine + 1 && v.without_this_engine().dataset == 0
            && v.without_this_engine().done == v.done,
        !v.skip_vector_index ==> !v.leaves_out() && v.name() == v.engines[v.engine].name@,
        v.skip_vector_index && (v.engines[v.engine].engine matches Some(t) && t@ == "redis"@)
            ==> !v.leaves_out() && v.name() == "redis"@ + "-no-vector"@,
{
}

/// Ratios are compared by how many updates there are for each search: of two with the same number of searches
/// the one with fewer updates is less, of two with the same updates the one with more searches, and a ratio
/// that is multiplied is the same ratio.
pub proof fn ratios_are_compared_by_updates_for_each_search(
    a: UpdateSearchRatio,
    b: UpdateSearchRatio,
    times: u64,
)
    requires
        a.searches > 0,
        b.searches > 0,
    ensures
        a.searches == b.searches ==> (plan::fewer_updates(a, b) <==> a.updates < b.updates),
        a.updates == b.updates && a.updates > 0 ==> (plan::fewer_updates(a, b) <==> a.searches
            > b.searches),
        times > 0 && b.updates == times * a.updates && b.searches == times * a.searches
            ==> !plan::fewer_updates(a, b) && !plan::fewer_updates(b, a),
{
    let (u, s, v, w) = (a.updates as int, a.searches as int, b.updates as int, b.searches as int);
    assert(s == w ==> (u * w < v * s <==> u < v)) by (nonlinear_arith)
        requires
            s > 0,
            w > 0,
    ;
    assert(u == v && u > 0 ==> (u * w < v * s <==> s > w)) by (nonlinear_arith)
        requires
            s > 0,
            w > 0,
    ;
    let k = times as int;
    assert(v == k * u && w == k * s ==> u * w == v * s) by (nonlinear_arith);
}

/// The ratios of a run are those of its texts, each in its place; the first text that gives none is the error.
pub proof fn every_ratio_is_read(texts: Seq<String>, n: int)
    requires
        0 <= n <= texts.len(),
    ensures
        match plan::read_ratios(texts, n) {
            Ok(list) => list.len() == n && forall|i: int|
                0 <= i < n ==> plan::read_ratio((#[trigger] texts[i])@) == Ok::<
                    UpdateSearchRatio,
                    Seq<char>,
                >(list[i]),
            Err(e) => exists|i: int|
                0 <= i < n && plan::read_ratio((#[trigger] texts[i])@) == Err::<
                    UpdateSearchRatio,
                    Seq<char>,
                >(e) && forall|j: int| 0 <= j < i ==> plan::read_ratio((#[trigger] texts[j])@) is Ok,
        },
    decreases n,
{
    if n > 0 {
        every_ratio_is_read(texts, n - 1);
        match plan::read_ratios(texts, n - 1) {
            Ok(list) => {
                if plan::read_ratio(texts[n - 1]@) is Err {
                    assert forall|j: int| 0 <= j < n - 1 implies plan::read_ratio(
                        (#[trigger] texts[j])@,
                    ) is Ok by {}
                }
            },
            Err(e) => {},
        }
    }
}

/// What is said of the data at the end of a run is what becomes of it.
pub proof fn what_becomes_of_the_data_is_said(a: RunOptions, is_last_config: bool)
    ensures
        text::holds_text(plan::final_stage_line(a, is_last_config), "Keep data"@)
            <== plan::keeps_data(a, is_last_config),
        !plan::keeps_data(a, is_last_config) ==> text::holds_text(
            plan::final_stage_line(a, is_last_config),
            "Cleanup"@,
        ),
{
    let keep = "Experiment stage: Keep data ("@;
    let multi =
        "Experiment stage: Cleanup (multi-config --keep-data: freeing this config's data before the next; only the last config's data is kept)"@;
    let plain = "Experiment stage: Cleanup (deleting index and data)"@;
    reveal_strlit("Experiment stage: Keep data (");
    reveal_strlit(
        "Experiment stage: Cleanup (multi-config --keep-data: freeing this config's data before the next; only the last config's data is kept)",
    );
    reveal_strlit("Experiment stage: Cleanup (deleting index and data)");
    reveal_strlit("Keep data");
    reveal_strlit("Cleanup");
    if plan::keeps_data(a, is_last_config) {
        let whole = plan::final_stage_line(a, is_last_config);
        assert(whole.subrange(18, 27) =~= "Keep data"@);
        text::a_text_is_found_where_it_stands_first(whole, "Keep data"@, 0, 18);
    } else {
        assert(multi.subrange(18, 25) =~= "Cleanup"@);
        assert(plain.subrange(18, 25) =~= "Cleanup"@);
        text::a_text_is_found_where_it_stands_first(multi, "Cleanup"@, 0, 18);
        text::a_text_is_found_where_it_stands_first(plain, "Cleanup"@, 0, 18);
    }
}

} // verus!
