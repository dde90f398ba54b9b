//! What the course of an experiment promises: which repetition of a search counts, that every search is made,
//! and what ends an experiment.
use vstd::prelude::*;

use crate::experiment::plan::{self, RunOptions, Scores, WarmUp};
use crate::experiment::run::{self, EventView, Itinerary, Pairing, Progress, Step};
use crate::float_bits;
use crate::text;

verus! {

/// The progress after several repetitions of a search.
pub open spec fn after_repetitions(plan: Itinerary, p: Progress, events: Seq<EventView>) -> Progress
    decreases events.len(),
{
    if events.len() == 0 {
        p
    } else {
        run::repeated(
            plan,
            after_repetitions(plan, p, events.drop_last()),
            (events.len() - 1) as u64,
            events.last(),
        )
    }
}

/// Whether what a repetition measured can be compared.
pub open spec fn is_comparable(e: EventView) -> bool {
    e matches EventView::Searched { scores, .. } ==> !float_bits::is_nan64(scores.rps)
        && !float_bits::is_nan64(plan::tail(scores))
}

/// The repetition that counts is one that was made, with what it measured, and no repetition is better;
/// where none counts, none succeeded.
pub proof fn the_best_repetition_counts(
    plan: Itinerary,
    p: Progress,
    events: Seq<EventView>,
    k: int,
)
    requires
        p.best is None,
        events.len() <= u64::MAX,
        forall|i: int| 0 <= i < events.len() ==> is_comparable(#[trigger] events[i]),
        0 <= k < events.len(),
    ensures
        match after_repetitions(plan, p, events).best {
            Some(b) => {
                &&& b.repetition < events.len()
                &&& events[b.repetition as int] == (EventView::Searched {
                    scores: b.scores,
                    failed_queries: b.failed_queries,
                    requested_queries: b.requested_queries,
                })
                &&& events[k] matches EventView::Searched { scores, .. } ==> !plan::beats(
                    scores,
                    b.scores,
                    plan.course.open_loop,
                )
            },
            None => !(events[k] is Searched),
        },
    decreases events.len(),
{
    let front = events.drop_last();
    assert forall|i: int| 0 <= i < front.len() implies is_comparable(#[trigger] front[i]) by {
        assert(events[i] == front[i]);
    }
    assert(is_comparable(events.last()));
    assert(events[events.len() - 1] == events.last());
    let before = after_repetitions(plan, p, front);
    if front.len() == 0 {
        assert(before == p);
        if let EventView::Searched { scores, .. } = events.last() {
            plan::beating_is_strict(scores, scores, plan.course.open_loop);
        }
    } else {
        let j = if k < front.len() {
            k
        } else {
            0
        };
        the_best_repetition_counts(plan, p, front, j);
        assert(front[j] == events[j]);
        if let Some(b) = before.best {
            assert(front[b.repetition as int] == events[b.repetition as int]);
            assert(is_comparable(events[b.repetition as int]));
            if let EventView::Searched { scores, .. } = events.last() {
                plan::beating_is_strict(scores, b.scores, plan.course.open_loop);
                plan::beating_is_strict(scores, scores, plan.course.open_loop);
                if let EventView::Searched { scores: other, .. } = events[k] {
                    assert(is_comparable(events[k]));
                    if k < front.len() && plan::beats(scores, b.scores, plan.course.open_loop) {
                        lemma_unbeaten(other, b.scores, scores, plan.course.open_loop);
                    }
                }
            }
        } else {
            lemma_none_succeeded(plan, p, front, j);
            if k < front.len() {
                assert(!(events[k] is Searched));
            }
            if let EventView::Searched { scores, .. } = events.last() {
                plan::beating_is_strict(scores, scores, plan.course.open_loop);
            }
        }
    }
}

/// Where no repetition counts, none succeeded.
proof fn lemma_none_succeeded(plan: Itinerary, p: Progress, events: Seq<EventView>, k: int)
    requires
        after_repetitions(plan, p, events).best is None,
        0 <= k < events.len(),
    ensures
        !(events[k] is Searched),
    decreases events.len(),
{
    if k < events.len() - 1 {
        lemma_none_succeeded(plan, p, events.drop_last(), k);
    }
}

/// What does not beat the best does not beat what is better.
proof fn lemma_unbeaten(a: Scores, b: Scores, c: Scores, open_loop: bool)
    requires
        !plan::beats(a, b, open_loop),
        plan::beats(c, b, open_loop),
        !float_bits::is_nan64(a.rps),
        !float_bits::is_nan64(b.rps),
        !float_bits::is_nan64(c.rps),
        !float_bits::is_nan64(plan::tail(a)),
        !float_bits::is_nan64(plan::tail(b)),
        !float_bits::is_nan64(plan::tail(c)),
    ensures
        !plan::beats(a, c, open_loop),
{
}

/// Every search is made, one after the other, and each as often as it is repeated: the next repetition
/// follows a repetition, and behind the last one the next search is begun, until all are made.
pub proof fn every_search_is_made(
    plan: Itinerary,
    p: Progress,
    e: EventView,
    ratios: Option<Seq<char>>,
    point: usize,
    repetition: u64,
)
    requires
        run::on_course(plan, p),
        p.step == (Step::Search { point, repetition }),
    ensures
        ({
            let n = run::next(plan, p, e, ratios);
            &&& repetition + 1 < plan.course.repetitions ==> n.step == (Step::Search {
                point,
                repetition: (repetition + 1) as u64,
            })
            &&& repetition + 1 == plan.course.repetitions && point + 1 < plan.course.points && (
            !plan.course.exit_on_error || e is Searched) ==> {
                ||| n.step == Step::Calibrate((point + 1) as usize)
                ||| n.step == Step::WarmUp((point + 1) as usize)
                ||| n.step == (Step::Search { point: (point + 1) as usize, repetition: 0 })
            }
            &&& repetition + 1 == plan.course.repetitions && point + 1 == plan.course.points ==> n.step
                == Step::TakeSnapshot
            &&& repetition + 1 == plan.course.repetitions && e is Searched ==> n.completed.len()
                == p.completed.len() + 1 && n.completed.last().0 == point
        }),
{
}

/// A parameter is calibrated before the server is warmed up, and the server is warmed up before the
/// search: each where it is asked for, and never otherwise.
pub proof fn searches_are_prepared_as_asked(plan: Itinerary, p: Progress, i: int)
    requires
        plan.well_formed(),
        0 <= i < plan.course.points,
    ensures
        run::starting(plan, p, i).step is Calibrate <==> plan.calibrated[i]
            && !plan.course.skip_vector_index,
        !(plan.calibrated[i] && !plan.course.skip_vector_index) && plan.course.warm_up
            != WarmUp::Nothing ==> run::starting(plan, p, i).step == Step::WarmUp(i as usize),
        !plan.calibrated[i] && plan.course.warm_up == WarmUp::Nothing ==> run::starting(
            plan,
            p,
            i,
        ).step == (Step::Search { point: i as usize, repetition: 0 }),
        run::warming(plan, p, i as usize).step is WarmUp <==> plan.course.warm_up != WarmUp::Nothing,
{
}

/// An experiment begins with the setup of the server where it uploads, and with a check of what is there
/// where it does not; the upload follows the setup, and the searches follow both where any are made.
pub proof fn experiments_begin_with_their_corpus(
    plan: Itinerary,
    p: Progress,
    e: EventView,
)
    requires
        !(e is Failed),
    ensures
        !plan.course.skip_upload ==> run::beginning(plan).step == Step::Configure,
        plan.course.skip_upload ==> run::beginning(plan).step == Step::CheckReuse,
        p.step is Configure ==> run::next(plan, p, e, None).step == Step::Upload,
        p.step is Upload ==> run::next(plan, p, e, None).step == Step::SaveUpload,
        (p.step is SaveUpload || p.step is CheckReuse) && !plan.course.skip_search
            && !plan.course.skip_vector_index ==> run::next(plan, p, e, None).step
            == Step::ProfileGroundTruth,
        (p.step is SaveUpload || p.step is CheckReuse) && plan.course.skip_search ==> run::next(
            plan,
            p,
            e,
            None,
        ).step == Step::TakeSnapshot,
{
}

/// Data that nobody keeps is deleted at the end: once a run that uploaded it is summed up.
pub proof fn data_that_is_not_kept_is_deleted(plan: Itinerary, p: Progress, e: EventView)
    requires
        p.step is Summarise,
        !(e is Failed),
    ensures
        !plan.course.keep_data && !plan.course.skip_upload ==> run::next(plan, p, e, None).step
            == Step::Delete,
        plan.course.keep_data || plan.course.skip_upload ==> run::next(plan, p, e, None).step
            == Step::Finish,
{
}

/// Lost queries are noted with the search that lost them, and fail the experiment where that is asked for,
/// once its results are saved; otherwise they do not.
pub proof fn lost_queries_fail_where_asked(plan: Itinerary, p: Progress, i: int)
    requires
        plan.well_formed(),
        0 <= i < plan.course.points,
        p.best is Some,
        p.error is None,
    ensures
        p.best->Some_0.failed_queries > 0 ==> run::concluded(plan, p, i).dropped.len()
            == p.dropped.len() + 1 && text::holds_text(
            run::concluded(plan, p, i).dropped.last(),
            text::decimal(plan.search_ids[i] as nat),
        ),
        p.best->Some_0.failed_queries == 0 ==> run::concluded(plan, p, i).dropped == p.dropped,
        p.dropped.len() > 0 ==> (run::judging(plan, p).step is Fail
            <==> plan.course.fail_on_dropped_queries),
        p.dropped.len() == 0 ==> !(run::judging(plan, p).step is Fail),
        p.dropped.len() == 0 && p.completed.len() > 0 ==> run::judging(plan, p).step is Summarise,
{
    let b = p.best->Some_0;
    let id = text::decimal(plan.search_ids[i] as nat);
    let failed = text::decimal(b.failed_queries as nat);
    let requested = text::decimal(b.requested_queries as nat);
    let line = run::dropped_line(
        plan.search_ids[i] as nat,
        b.failed_queries as nat,
        b.requested_queries as nat,
    );
    assert(line =~= "search #"@ + id + (": "@ + failed + "/"@ + requested + " queries dropped"@));
    text::a_text_holds_its_parts(
        "search #"@,
        id,
        ": "@ + failed + "/"@ + requested + " queries dropped"@,
    );
}

/// An experiment is left out where the engine cannot take the dataset, or where nothing is uploaded, results
/// are there and that is enough; and it is made otherwise.
pub proof fn experiments_are_left_out_for_a_reason(p: Pairing, a: RunOptions)
    ensures
        run::skip_reason(p, a) is Some <==> (p.needs_sparse && !p.supports_sparse) || (a.skip_if_exists
            && p.results_exist && a.skip_upload),
{
}

/// What an experiment goes by is what the options of the run say.
pub proof fn experiments_go_by_the_options(
    a: RunOptions,
    is_last_config: bool,
    has_schema_fields: bool,
    points: usize,
)
    ensures
        ({
            let c = run::course_for(a, is_last_config, has_schema_fields, points);
            &&& c.skip_upload == a.skip_upload
            &&& c.skip_search == a.skip_search
            &&& c.skip_vector_index == a.skip_vector_index
            &&& c.exit_on_error == a.exit_on_error
            &&& c.fail_on_dropped_queries == a.fail_on_dropped_queries
            &&& c.open_loop == float_bits::less64(0, a.target_qps)
            &&& c.has_schema_fields == has_schema_fields
            &&& c.points == points
            &&& c.keep_data <==> a.skip_upload || (a.keep_data && (is_last_config
                || !a.reset_between_configs))
        }),
{
}

} // verus!
