//! The course of one experiment: what is done next, given what came of what was done before.
use vstd::prelude::*;

use crate::experiment::plan::{is_better, RunOptions, Scores, WarmUp};
use crate::experiment::plan;
use crate::experiment::results::SearchParams;
use crate::float_bits::{self, below64};
use crate::text::{self, decimal_text, join_texts};

verus! {

/// What is known of an engine and a dataset before an experiment.
pub struct Pairing {
    pub engine: String,
    pub dataset: String,
    pub dataset_type: Option<String>,
    /// Whether the vectors of the dataset are sparse, wholly or in part.
    pub needs_sparse: bool,
    pub supports_sparse: bool,
    /// Whether there are results of an upload of the engine and the dataset.
    pub results_exist: bool,
}

/// What is said of an engine that cannot take a dataset.
pub open spec fn incompatible_line(engine: Seq<char>, dataset: Seq<char>, kind: Seq<char>) -> Seq<char> {
    "Skipping "@
        + engine
        + " - "@
        + dataset
        + ": the dataset is "@
        + kind
        + " and this engine has no sparse path"@
}

/// What is said of an engine that cannot take a dataset.
fn new_incompatible_line(engine: &str, dataset: &str, kind: &str) -> (m: String)
    ensures
        m@ == incompatible_line(engine@, dataset@, kind@),
{
    let mut m: String = "Skipping ".to_owned();
    m.append(engine);
    m.append(" - ");
    m.append(dataset);
    m.append(": the dataset is ");
    m.append(kind);
    m.append(" and this engine has no sparse path");
    m
}

/// What is said of results that are there already.
pub open spec fn existing_line(engine: Seq<char>, dataset: Seq<char>) -> Seq<char> {
    "Skipping (results exist): "@
        + engine
        + "-"@
        + dataset
        + "-upload-*.json"@
}

/// What is said of results that are there already.
fn new_existing_line(engine: &str, dataset: &str) -> (m: String)
    ensures
        m@ == existing_line(engine@, dataset@),
{
    let mut m: String = "Skipping (results exist): ".to_owned();
    m.append(engine);
    m.append("-");
    m.append(dataset);
    m.append("-upload-*.json");
    m
}

/// Why an experiment is not made, where it is not: the engine cannot take the dataset, or there are
/// results already and nothing is uploaded.
pub open spec fn skip_reason(p: Pairing, a: RunOptions) -> Option<Seq<char>> {
    if p.needs_sparse && !p.supports_sparse {
        Some(
            incompatible_line(
                p.engine@,
                p.dataset@,
                match p.dataset_type {
                    Some(t) => t@,
                    None => "sparse"@,
                },
            ),
        )
    } else if a.skip_if_exists && p.results_exist && a.skip_upload {
        Some(existing_line(p.engine@, p.dataset@))
    } else {
        None
    }
}

/// Why an experiment is not made, where it is not.
pub fn reason_to_skip(p: &Pairing, a: &RunOptions) -> (r: Option<String>)
    ensures
        match skip_reason(*p, *a) {
            Some(m) => r matches Some(t) && t@ == m,
            None => r is None,
        },
{
    if p.needs_sparse && !p.supports_sparse {
        let kind: &str = match &p.dataset_type {
            Some(t) => t.as_str(),
            None => "sparse",
        };
        return Some(new_incompatible_line(p.engine.as_str(), p.dataset.as_str(), kind));
    }
    if a.skip_if_exists && p.results_exist && a.skip_upload {
        return Some(new_existing_line(p.engine.as_str(), p.dataset.as_str()));
    }
    None
}

/// What an experiment goes by.
#[derive(Debug, Clone, Copy, PartialEq, Eq, Structural)]
pub struct Course {
    pub skip_upload: bool,
    pub skip_search: bool,
    pub skip_vector_index: bool,
    pub has_schema_fields: bool,
    pub exit_on_error: bool,
    pub fail_on_dropped_queries: bool,
    pub keep_data: bool,
    pub open_loop: bool,
    pub warm_up: WarmUp,
    pub repetitions: u64,
    /// How many searches there are to make.
    pub points: usize,
}

/// What an experiment goes by, as the options of the run say.
pub open spec fn course_for(
    a: RunOptions,
    is_last_config: bool,
    has_schema_fields: bool,
    points: usize,
) -> Course {
    Course {
        skip_upload: a.skip_upload,
        skip_search: a.skip_search,
        skip_vector_index: a.skip_vector_index,
        has_schema_fields,
        exit_on_error: a.exit_on_error,
        fail_on_dropped_queries: a.fail_on_dropped_queries,
        keep_data: plan::keeps_data(a, is_last_config),
        open_loop: float_bits::less64(0, a.target_qps),
        warm_up: plan::warm_up_of(a),
        repetitions: plan::repeats(a),
        points,
    }
}

/// What an experiment goes by, as the options of the run say.
pub fn course_of(
    a: &RunOptions,
    is_last_config: bool,
    has_schema_fields: bool,
    points: usize,
) -> (r: Course)
    ensures
        r == course_for(*a, is_last_config, has_schema_fields, points),
        r.repetitions >= 1,
{
    Course {
        skip_upload: a.skip_upload,
        skip_search: a.skip_search,
        skip_vector_index: a.skip_vector_index,
        has_schema_fields,
        exit_on_error: a.exit_on_error,
        fail_on_dropped_queries: a.fail_on_dropped_queries,
        keep_data: plan::keep_data(a, is_last_config),
        open_loop: below64(0, a.target_qps),
        warm_up: plan::warm_up(a),
        repetitions: plan::repetitions(a),
        points,
    }
}

/// Whether a search is calibrated before it is made: a parameter and a precision are named for it.
pub fn is_calibrated(s: &SearchParams) -> (r: bool)
    ensures
        r == (s.calibration_param is Some && s.calibration_precision is Some),
{
    s.calibration_param.is_some() && s.calibration_precision.is_some()
}

/// What is done.
#[derive(Debug, Clone, Copy, PartialEq, Eq, Structural)]
pub enum Step {
    Configure,
    Upload,
    SaveUpload,
    CheckReuse,
    ProfileGroundTruth,
    Calibrate(usize),
    WarmUp(usize),
    Search { point: usize, repetition: u64 },
    TakeSnapshot,
    Save(usize),
    Summarise,
    Delete,
    Finish,
    /// The experiment is over with an error.
    Fail,
}

/// The best repetition of a search so far.
#[derive(Debug, Clone, Copy, PartialEq, Eq, Structural)]
pub struct Best {
    pub repetition: u64,
    pub scores: Scores,
    pub failed_queries: u64,
    pub requested_queries: u64,
}

/// What came of what was done. Only a search has more to say than that it succeeded.
pub enum Event {
    Succeeded,
    Searched { scores: Scores, failed_queries: u64, requested_queries: u64 },
    Failed(String),
}

/// What came of what was done.
pub enum EventView {
    Succeeded,
    Searched { scores: Scores, failed_queries: u64, requested_queries: u64 },
    Failed(Seq<char>),
}

impl View for Event {
    type V = EventView;

    open spec fn view(&self) -> EventView {
        match *self {
            Event::Succeeded => EventView::Succeeded,
            Event::Searched { scores, failed_queries, requested_queries } => EventView::Searched {
                scores,
                failed_queries,
                requested_queries,
            },
            Event::Failed(e) => EventView::Failed(e@),
        }
    }
}

/// An experiment under way: the step that is being done, the best repetition of the current search and
/// the last error of it, the searches that are completed with the repetition that counts, those that
/// lost queries, and the error that the experiment ends with.
pub struct Experiment {
    pub course: Course,
    /// Of each search, the place of its parameters.
    pub search_ids: Vec<usize>,
    /// Of each search, whether a parameter of it is calibrated.
    pub calibrated: Vec<bool>,
    pub step: Step,
    pub best: Option<Best>,
    pub last_error: Option<String>,
    pub completed: Vec<(usize, u64)>,
    pub dropped: Vec<String>,
    pub error: Option<String>,
}

/// What an experiment under way is.
#[verifier::ext_equal]
pub struct Progress {
    pub step: Step,
    pub best: Option<Best>,
    pub last_error: Option<Seq<char>>,
    pub completed: Seq<(usize, u64)>,
    pub dropped: Seq<Seq<char>>,
    pub error: Option<Seq<char>>,
}

/// A text that may be missing.
pub open spec fn text_of(s: Option<String>) -> Option<Seq<char>> {
    match s {
        Some(t) => Some(t@),
        None => None,
    }
}

impl View for Experiment {
    type V = Progress;

    open spec fn view(&self) -> Progress {
        Progress {
            step: self.step,
            best: self.best,
            last_error: text_of(self.last_error),
            completed: self.completed@,
            dropped: text::texts_view(self.dropped@),
            error: text_of(self.error),
        }
    }
}

/// What is noted of a search that lost queries.
pub open spec fn dropped_line(id: nat, failed: nat, requested: nat) -> Seq<char> {
    "search #"@
        + text::decimal(id)
        + ": "@
        + text::decimal(failed)
        + "/"@
        + text::decimal(requested)
        + " queries dropped"@
}

/// What is noted of a search that lost queries.
fn new_dropped_line(id: u64, failed: u64, requested: u64) -> (m: String)
    ensures
        m@ == dropped_line(id as nat, failed as nat, requested as nat),
{
    let mut m: String = "search #".to_owned();
    m.append(decimal_text(id).as_str());
    m.append(": ");
    m.append(decimal_text(failed).as_str());
    m.append("/");
    m.append(decimal_text(requested).as_str());
    m.append(" queries dropped");
    m
}

/// What is said of a search of which every repetition failed.
pub open spec fn all_failed(repetitions: nat, why: Seq<char>) -> Seq<char> {
    "search failed (all "@
        + text::decimal(repetitions)
        + " repetition(s))"@
        + why
}

/// What is said of a search of which every repetition failed.
fn new_all_failed(repetitions: u64, why: &str) -> (m: String)
    ensures
        m@ == all_failed(repetitions as nat, why@),
{
    let mut m: String = "search failed (all ".to_owned();
    m.append(decimal_text(repetitions).as_str());
    m.append(" repetition(s))");
    m.append(why);
    m
}

/// What is said of an experiment that lost queries.
pub open spec fn dropped_error(count: nat, lines: Seq<char>) -> Seq<char> {
    text::decimal(count)
        + " search config(s) lost queries and --fail-on-dropped-queries is set: "@
        + lines
        + ". Recall/latency for these cover the surviving subset only, which biases recall upward. Results were still written; re-run with less load, or drop the flag to accept a partial run."@
}

/// What is said of an experiment that lost queries.
fn new_dropped_error(count: u64, lines: &str) -> (m: String)
    ensures
        m@ == dropped_error(count as nat, lines@),
{
    let mut m: String = decimal_text(count);
    m.append(" search config(s) lost queries and --fail-on-dropped-queries is set: ");
    m.append(lines);
    m.append(". Recall/latency for these cover the surviving subset only, which biases recall upward. Results were still written; re-run with less load, or drop the flag to accept a partial run.");
    m
}

/// The error of a search of which every repetition failed.
pub open spec fn search_failure(repetitions: u64, last_error: Option<Seq<char>>) -> Seq<char> {
    all_failed(
        repetitions as nat,
        match last_error {
            Some(e) => ": "@ + e,
            None => ""@,
        },
    )
}

/// What an experiment does: what it goes by, and of each search the place of its parameters and whether
/// a parameter of it is calibrated.
pub struct Itinerary {
    pub course: Course,
    pub search_ids: Seq<usize>,
    pub calibrated: Seq<bool>,
}

impl Itinerary {
    /// Whether there is something said of every search, and at least one repetition.
    pub open spec fn well_formed(self) -> bool {
        &&& self.search_ids.len() == self.course.points
        &&& self.calibrated.len() == self.course.points
        &&& self.course.repetitions >= 1
    }
}

/// The progress with another step.
pub open spec fn going_to(p: Progress, step: Step) -> Progress {
    Progress { step, ..p }
}

/// The progress that ends with an error.
pub open spec fn failing(p: Progress, e: Seq<char>) -> Progress {
    Progress { step: Step::Fail, error: Some(e), ..p }
}

/// The start of the repetitions of search `i`.
pub open spec fn searching(p: Progress, i: usize) -> Progress {
    Progress {
        step: Step::Search { point: i, repetition: 0 },
        best: None,
        last_error: None,
        ..p
    }
}

/// What is done before the repetitions of search `i`: the server is warmed up where that is asked for.
pub open spec fn warming(plan: Itinerary, p: Progress, i: usize) -> Progress {
    if plan.course.warm_up == WarmUp::Nothing {
        searching(p, i)
    } else {
        going_to(p, Step::WarmUp(i))
    }
}

/// The start of search `i`, or what follows where there are no more.
pub open spec fn starting(plan: Itinerary, p: Progress, i: int) -> Progress {
    if i >= plan.course.points {
        going_to(p, Step::TakeSnapshot)
    } else if plan.calibrated[i] && !plan.course.skip_vector_index {
        going_to(p, Step::Calibrate(i as usize))
    } else {
        warming(plan, p, i as usize)
    }
}

/// The end of an experiment: the data is deleted, or stays. What the run did not upload stays.
pub open spec fn cleaning(plan: Itinerary, p: Progress) -> Progress {
    if plan.course.keep_data || plan.course.skip_upload {
        going_to(p, Step::Finish)
    } else {
        going_to(p, Step::Delete)
    }
}

/// What follows once the corpus is there. The ratios that are asked for are looked at only now. Where
/// nothing is searched for, or there is nothing to search for, the experiment goes to its end.
pub open spec fn with_corpus(plan: Itinerary, p: Progress, ratios: Option<Seq<char>>) -> Progress {
    match ratios {
        Some(e) => failing(p, e),
        None => if plan.course.skip_search {
            going_to(p, Step::TakeSnapshot)
        } else if plan.course.skip_vector_index {
            if plan.course.has_schema_fields {
                starting(plan, p, 0)
            } else {
                cleaning(plan, p)
            }
        } else {
            going_to(p, Step::ProfileGroundTruth)
        },
    }
}

/// What follows once everything is saved: the error of a search that failed, or of queries that were
/// lost where that is asked for; then the summary, where there is something to sum up.
pub open spec fn judging(plan: Itinerary, p: Progress) -> Progress {
    match p.error {
        Some(e) => going_to(p, Step::Fail),
        None => if plan.course.fail_on_dropped_queries && p.dropped.len() > 0 {
            failing(p, dropped_error(p.dropped.len(), text::joined(p.dropped, "; "@)))
        } else if p.completed.len() > 0 {
            going_to(p, Step::Summarise)
        } else {
            cleaning(plan, p)
        },
    }
}

/// The progress after a repetition.
pub open spec fn repeated(plan: Itinerary, p: Progress, repetition: u64, e: EventView) -> Progress {
    match e {
        EventView::Searched { scores, failed_queries, requested_queries } => {
            let better = match p.best {
                None => true,
                Some(b) => plan::beats(scores, b.scores, plan.course.open_loop),
            };
            if better {
                Progress {
                    best: Some(Best { repetition, scores, failed_queries, requested_queries }),
                    ..p
                }
            } else {
                p
            }
        },
        EventView::Failed(m) => Progress { last_error: Some(m), ..p },
        EventView::Succeeded => p,
    }
}

/// The progress after the last repetition of search `i`: the best is completed; without one the search
/// failed, and ends the searches where that is asked for. What is completed is still saved.
pub open spec fn concluded(plan: Itinerary, p: Progress, i: int) -> Progress {
    match p.best {
        Some(b) => {
            let dropped = if b.failed_queries > 0 {
                p.dropped.push(
                    dropped_line(
                        plan.search_ids[i] as nat,
                        b.failed_queries as nat,
                        b.requested_queries as nat,
                    ),
                )
            } else {
                p.dropped
            };
            starting(
                plan,
                Progress { completed: p.completed.push((i as usize, b.repetition)), dropped, ..p },
                i + 1,
            )
        },
        None => if plan.course.exit_on_error {
            Progress {
                step: Step::TakeSnapshot,
                error: Some(search_failure(plan.course.repetitions, p.last_error)),
                ..p
            }
        } else {
            starting(plan, p, i + 1)
        },
    }
}

/// The error of a warm-up that failed.
pub open spec fn warm_up_failure(kind: WarmUp, e: Seq<char>) -> Seq<char> {
    if kind == WarmUp::OpenLoop {
        "open-loop warm-up failed: "@ + e
    } else {
        "closed-loop warm-up failed: "@ + e
    }
}

/// The progress after a step. `ratios` is what is wrong with the ratios that are asked for, where
/// something is.
pub open spec fn next(
    plan: Itinerary,
    p: Progress,
    e: EventView,
    ratios: Option<Seq<char>>,
) -> Progress {
    match p.step {
        Step::Configure => match e {
            EventView::Failed(m) => failing(p, m),
            _ => going_to(p, Step::Upload),
        },
        Step::Upload => match e {
            EventView::Failed(m) => failing(p, m),
            _ => going_to(p, Step::SaveUpload),
        },
        Step::SaveUpload => match e {
            EventView::Failed(m) => failing(p, m),
            _ => with_corpus(plan, p, ratios),
        },
        Step::CheckReuse => match e {
            EventView::Failed(m) => failing(p, m),
            _ => with_corpus(plan, p, ratios),
        },
        Step::ProfileGroundTruth => starting(plan, p, 0),
        Step::Calibrate(i) => warming(plan, p, i),
        Step::WarmUp(i) => match e {
            EventView::Failed(m) => failing(p, warm_up_failure(plan.course.warm_up, m)),
            _ => searching(p, i),
        },
        Step::Search { point, repetition } => {
            let after = repeated(plan, p, repetition, e);
            if repetition + 1 < plan.course.repetitions {
                going_to(after, Step::Search { point, repetition: (repetition + 1) as u64 })
            } else {
                concluded(plan, after, point as int)
            }
        },
        Step::TakeSnapshot => if p.completed.len() > 0 {
            going_to(p, Step::Save(0))
        } else {
            judging(plan, p)
        },
        Step::Save(k) => match e {
            EventView::Failed(m) => failing(p, m),
            _ => if k + 1 < p.completed.len() {
                going_to(p, Step::Save((k + 1) as usize))
            } else {
                judging(plan, p)
            },
        },
        Step::Summarise => match e {
            EventView::Failed(m) => failing(p, m),
            _ => cleaning(plan, p),
        },
        Step::Delete => match e {
            EventView::Failed(m) => failing(p, m),
            _ => going_to(p, Step::Finish),
        },
        Step::Finish => p,
        Step::Fail => p,
    }
}

/// The start of an experiment: a corpus that is reused is checked and not touched.
pub open spec fn beginning(plan: Itinerary) -> Progress {
    Progress {
        step: if plan.course.skip_upload {
            Step::CheckReuse
        } else {
            Step::Configure
        },
        best: None,
        last_error: None,
        completed: Seq::empty(),
        dropped: Seq::empty(),
        error: None,
    }
}

/// Whether the places in a progress are ones of its plan.
pub open spec fn on_course(plan: Itinerary, p: Progress) -> bool {
    &&& plan.well_formed()
    &&& p.completed.len() <= plan.course.points
    &&& match p.step {
        Step::Calibrate(i) => i < plan.course.points && p.completed.len() <= i,
        Step::WarmUp(i) => i < plan.course.points && p.completed.len() <= i,
        Step::Search { point, repetition } => point < plan.course.points && repetition
            < plan.course.repetitions && p.completed.len() <= point,
        Step::Save(k) => k < p.completed.len(),
        Step::Configure => p.completed.len() == 0,
        Step::Upload => p.completed.len() == 0,
        Step::SaveUpload => p.completed.len() == 0,
        Step::CheckReuse => p.completed.len() == 0,
        Step::ProfileGroundTruth => p.completed.len() == 0,
        _ => true,
    }
}

impl Experiment {
    /// What the experiment does.
    pub open spec fn itinerary(&self) -> Itinerary {
        Itinerary {
            course: self.course,
            search_ids: self.search_ids@,
            calibrated: self.calibrated@,
        }
    }

    /// Whether the experiment is on its course.
    pub open spec fn well_formed(&self) -> bool {
        on_course(self.itinerary(), self@)
    }

    /// The start of an experiment.
    pub fn begin(course: Course, search_ids: Vec<usize>, calibrated: Vec<bool>) -> (r: Self)
        requires
            search_ids@.len() == course.points,
            calibrated@.len() == course.points,
            course.repetitions >= 1,
        ensures
            r.course == course,
            r.search_ids == search_ids,
            r.calibrated == calibrated,
            r@ == beginning(r.itinerary()),
            r.well_formed(),
    {
        let step: Step = if course.skip_upload {
            Step::CheckReuse
        } else {
            Step::Configure
        };
        let r: Experiment = Experiment {
            course,
            search_ids,
            calibrated,
            step,
            best: None,
            last_error: None,
            completed: Vec::new(),
            dropped: Vec::new(),
            error: None,
        };
        assert(r@ =~= beginning(r.itinerary()));
        r
    }

    /// Ends with an error.
    fn fail(&mut self, e: String)
        ensures
            final(self)@ == failing(old(self)@, e@),
            final(self).itinerary() == old(self).itinerary(),
    {
        self.step = Step::Fail;
        self.error = Some(e);
    }

    /// Starts the repetitions of search `i`.
    fn search(&mut self, i: usize)
        ensures
            final(self)@ == searching(old(self)@, i),
            final(self).itinerary() == old(self).itinerary(),
    {
        self.step = Step::Search { point: i, repetition: 0 };
        self.best = None;
        self.last_error = None;
    }

    /// Does what comes before the repetitions of search `i`.
    fn warm(&mut self, i: usize)
        ensures
            final(self)@ == warming(old(self).itinerary(), old(self)@, i),
            final(self).itinerary() == old(self).itinerary(),
    {
        if self.course.warm_up == WarmUp::Nothing {
            self.search(i);
        } else {
            self.step = Step::WarmUp(i);
        }
    }

    /// Starts search `i`, or goes on where there are no more.
    fn start(&mut self, i: usize)
        requires
            old(self).itinerary().well_formed(),
        ensures
            final(self)@ == starting(old(self).itinerary(), old(self)@, i as int),
            final(self).itinerary() == old(self).itinerary(),
    {
        if i >= self.course.points {
            self.step = Step::TakeSnapshot;
        } else if self.calibrated[i] && !self.course.skip_vector_index {
            self.step = Step::Calibrate(i);
        } else {
            self.warm(i);
        }
    }

    /// Goes to the end of the experiment.
    fn clean(&mut self)
        ensures
            final(self)@ == cleaning(old(self).itinerary(), old(self)@),
            final(self).itinerary() == old(self).itinerary(),
    {
        if self.course.keep_data || self.course.skip_upload {
            self.step = Step::Finish;
        } else {
            self.step = Step::Delete;
        }
    }

    /// Goes on once the corpus is there.
    fn go_on_with_corpus(&mut self, ratios: Option<&String>)
        requires
            old(self).itinerary().well_formed(),
        ensures
            final(self)@ == with_corpus(
                old(self).itinerary(),
                old(self)@,
                match ratios {
                    Some(e) => Some(e@),
                    None => None,
                },
            ),
            final(self).itinerary() == old(self).itinerary(),
    {
        match ratios {
            Some(e) => self.fail(e.clone()),
            None => if self.course.skip_search {
                self.step = Step::TakeSnapshot;
            } else if self.course.skip_vector_index {
                if self.course.has_schema_fields {
                    self.start(0);
                } else {
                    self.clean();
                }
            } else {
                self.step = Step::ProfileGroundTruth;
            },
        }
    }

    /// Goes on once everything is saved.
    fn judge(&mut self)
        ensures
            final(self)@ == judging(old(self).itinerary(), old(self)@),
            final(self).itinerary() == old(self).itinerary(),
    {
        assert(text::texts_view(self.dropped@).len() == self.dropped@.len());
        if self.error.is_some() {
            self.step = Step::Fail;
        } else if self.course.fail_on_dropped_queries && self.dropped.len() > 0 {
            let lines: String = join_texts(self.dropped.as_slice(), "; ");
            let e: String = new_dropped_error(self.dropped.len() as u64, lines.as_str());
            self.fail(e);
        } else if self.completed.len() > 0 {
            self.step = Step::Summarise;
        } else {
            self.clean();
        }
    }

    /// Takes note of a repetition.
    fn note(&mut self, repetition: u64, event: &Event)
        ensures
            final(self)@ == repeated(old(self).itinerary(), old(self)@, repetition, event@),
            final(self).itinerary() == old(self).itinerary(),
    {
        match event {
            Event::Searched { scores, failed_queries, requested_queries } => {
                let better: bool = match &self.best {
                    None => true,
                    Some(b) => is_better(*scores, b.scores, self.course.open_loop),
                };
                if better {
                    self.best = Some(
                        Best {
                            repetition,
                            scores: *scores,
                            failed_queries: *failed_queries,
                            requested_queries: *requested_queries,
                        },
                    );
                }
            },
            Event::Failed(m) => {
                self.last_error = Some(m.clone());
            },
            Event::Succeeded => {},
        }
    }

    /// Goes on after the last repetition of search `i`.
    fn conclude(&mut self, i: usize)
        requires
            old(self).itinerary().well_formed(),
            i < old(self).course.points,
        ensures
            final(self)@ == concluded(old(self).itinerary(), old(self)@, i as int),
            final(self).itinerary() == old(self).itinerary(),
    {
        match self.best {
            Some(b) => {
                let ghost before = *self;
                self.completed.push((i, b.repetition));
                if b.failed_queries > 0 {
                    let line: String = new_dropped_line(
                        self.search_ids[i] as u64,
                        b.failed_queries,
                        b.requested_queries,
                    );
                    let ghost lines = text::texts_view(self.dropped@);
                    self.dropped.push(line);
                    assert(text::texts_view(self.dropped@) =~= lines.push(line@));
                }
                self.start(i + 1);
            },
            None => {
                if self.course.exit_on_error {
                    let mut why: String = "".to_owned();
                    if let Some(e) = &self.last_error {
                        why = ": ".to_owned();
                        why.append(e.as_str());
                    }
                    self.error = Some(new_all_failed(self.course.repetitions, why.as_str()));
                    self.step = Step::TakeSnapshot;
                } else {
                    self.start(i + 1);
                }
            },
        }
    }

    /// Goes on after the step that was done. `ratios` is what is wrong with the ratios of updates that
    /// are asked for, where something is.
    pub fn advance(&mut self, event: &Event, ratios: Option<&String>)
        requires
            old(self).well_formed(),
        ensures
            final(self)@ == next(
                old(self).itinerary(),
                old(self)@,
                event@,
                match ratios {
                    Some(e) => Some(e@),
                    None => None,
                },
            ),
            final(self).itinerary() == old(self).itinerary(),
            final(self).well_formed(),
    {
        proof {
            courses_are_kept(
                self.itinerary(),
                self@,
                event@,
                match ratios {
                    Some(e) => Some(e@),
                    None => None,
                },
            );
        }
        let failed: Option<String> = match event {
            Event::Failed(m) => Some(m.clone()),
            _ => None,
        };
        match self.step {
            Step::Configure => match failed {
                Some(m) => self.fail(m),
                None => self.step = Step::Upload,
            },
            Step::Upload => match failed {
                Some(m) => self.fail(m),
                None => self.step = Step::SaveUpload,
            },
            Step::SaveUpload => match failed {
                Some(m) => self.fail(m),
                None => self.go_on_with_corpus(ratios),
            },
            Step::CheckReuse => match failed {
                Some(m) => self.fail(m),
                None => self.go_on_with_corpus(ratios),
            },
            Step::ProfileGroundTruth => self.start(0),
            Step::Calibrate(i) => self.warm(i),
            Step::WarmUp(i) => match failed {
                Some(m) => {
                    let mut e: String = if self.course.warm_up == WarmUp::OpenLoop {
                        "open-loop warm-up failed: ".to_owned()
                    } else {
                        "closed-loop warm-up failed: ".to_owned()
                    };
                    e.append(m.as_str());
                    self.fail(e);
                },
                None => self.search(i),
            },
            Step::Search { point, repetition } => {
                self.note(repetition, event);
                if repetition < u64::MAX && repetition + 1 < self.course.repetitions {
                    self.step = Step::Search { point, repetition: repetition + 1 };
                } else {
                    self.conclude(point);
                }
            },
            Step::TakeSnapshot => if self.completed.len() > 0 {
                self.step = Step::Save(0);
            } else {
                self.judge();
            },
            Step::Save(k) => match failed {
                Some(m) => self.fail(m),
                None => if k + 1 < self.completed.len() {
                    self.step = Step::Save(k + 1);
                } else {
                    self.judge();
                },
            },
            Step::Summarise => match failed {
                Some(m) => self.fail(m),
                None => self.clean(),
            },
            Step::Delete => match failed {
                Some(m) => self.fail(m),
                None => self.step = Step::Finish,
            },
            Step::Finish => {},
            Step::Fail => {},
        }
    }
}

/// Every step keeps an experiment on its course.
pub proof fn courses_are_kept(
    plan: Itinerary,
    p: Progress,
    e: EventView,
    ratios: Option<Seq<char>>,
)
    requires
        on_course(plan, p),
    ensures
        on_course(plan, next(plan, p, e, ratios)),
{
}

/// Whether a step writes to the corpus of a server, or takes it away.
pub open spec fn touches_the_corpus(step: Step) -> bool {
    step is Configure || step is Upload || step is SaveUpload || step is Delete
}

/// An experiment that reuses a corpus never configures, uploads or deletes, in any step, whatever comes
/// of the others.
pub proof fn a_reused_corpus_is_never_touched(
    plan: Itinerary,
    p: Progress,
    e: EventView,
    ratios: Option<Seq<char>>,
)
    requires
        plan.course.skip_upload,
    ensures
        !touches_the_corpus(beginning(plan).step),
        !touches_the_corpus(p.step) ==> !touches_the_corpus(next(plan, p, e, ratios).step),
{
}

/// Data that is to be kept is not deleted.
pub proof fn kept_data_is_not_deleted(
    plan: Itinerary,
    p: Progress,
    e: EventView,
    ratios: Option<Seq<char>>,
)
    requires
        plan.course.keep_data,
        !(p.step is Delete),
    ensures
        !(next(plan, p, e, ratios).step is Delete),
{
}

/// A search that fails never ends an experiment before what was completed is saved: from a search the
/// experiment goes to another step of a search or to the snapshot that the saving begins with, every
/// completed search is saved in turn, and none is lost on the way.
pub proof fn completed_searches_are_saved(
    plan: Itinerary,
    p: Progress,
    e: EventView,
    ratios: Option<Seq<char>>,
)
    requires
        on_course(plan, p),
    ensures
        p.step is Search ==> {
            let n = next(plan, p, e, ratios).step;
            n is Calibrate || n is WarmUp || n is Search || n is TakeSnapshot
        },
        p.step is TakeSnapshot && p.completed.len() > 0 ==> next(plan, p, e, ratios).step
            == Step::Save(0),
        p.step matches Step::Save(k) ==> k + 1 < p.completed.len() && !(e is Failed) ==> next(
            plan,
            p,
            e,
            ratios,
        ).step == Step::Save((k + 1) as usize),
        p.completed.is_prefix_of(next(plan, p, e, ratios).completed),
{
}

/// An experiment in which every repetition of a search failed ends with an error, where errors end it.
pub proof fn a_failed_search_is_never_swallowed(plan: Itinerary, p: Progress, i: int)
    requires
        plan.course.exit_on_error,
        p.best is None,
        0 <= i < plan.course.points,
    ensures
        concluded(plan, p, i).error is Some,
        judging(plan, concluded(plan, p, i)).step is Fail,
{
}

/// How many steps an experiment has left at most.
pub open spec fn steps_left(plan: Itinerary, p: Progress) -> int {
    let n = plan.course.points as int;
    let each = plan.course.repetitions + 3;
    match p.step {
        Step::Configure => n + n * each + 10,
        Step::Upload => n + n * each + 9,
        Step::SaveUpload => n + n * each + 8,
        Step::CheckReuse => n + n * each + 8,
        Step::ProfileGroundTruth => n + n * each + 7,
        Step::Calibrate(i) => n + (n - i) * each + 5,
        Step::WarmUp(i) => n + (n - i) * each + 4,
        Step::Search { point, repetition } => n + (n - point) * each + 3 - repetition,
        Step::TakeSnapshot => n + 5,
        Step::Save(k) => n - k + 4,
        Step::Summarise => 3,
        Step::Delete => 2,
        Step::Finish => 1,
        Step::Fail => 1,
    }
}

/// Every experiment ends: each step but the last leaves fewer to do.
pub proof fn experiments_end(plan: Itinerary, p: Progress, e: EventView, ratios: Option<Seq<char>>)
    requires
        on_course(plan, p),
        !(p.step is Finish),
        !(p.step is Fail),
    ensures
        0 <= steps_left(plan, next(plan, p, e, ratios)) < steps_left(plan, p),
{
    let n = plan.course.points as int;
    let each = plan.course.repetitions + 3;
    assert(n * each >= 0) by (nonlinear_arith)
        requires
            n >= 0,
            each >= 0,
    ;
    assert((n - 0) * each == n * each);
    match p.step {
        Step::Calibrate(i) => lemma_left(n, i as int, each),
        Step::WarmUp(i) => lemma_left(n, i as int, each),
        Step::Search { point, repetition } => {
            lemma_left(n, point as int, each);
            if point + 1 < n {
                lemma_left(n, point + 1, each);
            }
        },
        _ => {
            if n > 0 {
                lemma_left(n, 0, each);
            }
        },
    }
}

/// What a search has left is more than what the next one has.
proof fn lemma_left(n: int, i: int, each: int)
    requires
        0 <= i < n,
        each >= 0,
    ensures
        (n - i) * each == (n - (i + 1)) * each + each,
        (n - (i + 1)) * each >= 0,
{
    assert((n - i) * each == (n - (i + 1)) * each + each) by (nonlinear_arith);
    assert((n - (i + 1)) * each >= 0) by (nonlinear_arith)
        requires
            0 <= n - (i + 1),
            each >= 0,
    ;
}

} // verus!
