//! The order of a run: which configurations are run on which datasets, and when the run ends.
use vstd::prelude::*;

use crate::experiment::plan::{
    self, check_collisions, check_durations_supported, dedup_by_type, name_failure, select_datasets,
    select_engines, without_vector_index, EngineEntry, IndexClaim, NoVectorRun, RunOptions,
};
use crate::text::{self, decimal_text};

verus! {

/// What a run takes: the datasets and the configurations, by their places.
pub struct RunPlan {
    pub datasets: Vec<usize>,
    pub engines: Vec<usize>,
}

/// The items at some places.
pub open spec fn picked<T>(items: Seq<T>, places: Seq<int>) -> Seq<T> {
    Seq::new(places.len(), |i: int| items[places[i]])
}

/// The configurations that are run: those that are asked for, and without an index over vectors the
/// first of each type.
pub open spec fn kept_engines(a: RunOptions, entries: Seq<EngineEntry>) -> Seq<int> {
    let chosen = plan::marked(plan::engine_marks(entries), entries.len() as int);
    if a.skip_vector_index {
        let among = picked(entries, chosen);
        picked(chosen, plan::marked(plan::first_marks(among), among.len() as int))
    } else {
        chosen
    }
}

/// What a run takes, or why there is nothing to run.
pub open spec fn planned(
    a: RunOptions,
    wanted: Seq<bool>,
    entries: Seq<EngineEntry>,
    claims: Seq<IndexClaim>,
) -> Result<(Seq<int>, Seq<int>), Seq<char>> {
    let datasets = plan::marked(wanted, wanted.len() as int);
    let chosen = plan::marked(plan::engine_marks(entries), entries.len() as int);
    let timeless = plan::without_duration(picked(entries, chosen), chosen.len() as int);
    let kept = kept_engines(a, entries);
    let made = picked(claims, kept);
    if datasets.len() == 0 {
        Err(plan::no_dataset_error(text::joined(text::texts_view(a.datasets@), ", "@)))
    } else if chosen.len() == 0 {
        Err(plan::no_engine_error(text::joined(text::texts_view(a.engines@), ", "@)))
    } else if plan::is_timed(a) && timeless.len() > 0 {
        Err(plan::duration_error(text::joined(timeless, ", "@)))
    } else {
        match plan::first_collision(made, made.len() as int) {
            Some((j, i)) => Err(plan::collision_message(made, j, i)),
            None => Ok((datasets, kept)),
        }
    }
}

/// The places that are marked are places.
proof fn lemma_marked_places(marks: Seq<bool>, n: int, i: int)
    requires
        0 <= n <= marks.len(),
        0 <= i < plan::marked(marks, n).len(),
    ensures
        0 <= plan::marked(marks, n)[i] < n,
    decreases n,
{
    if n > 0 {
        if i < plan::marked(marks, n - 1).len() {
            lemma_marked_places(marks, n - 1, i);
        }
    }
}

/// The entries at some places.
fn pick_entries(entries: &[EngineEntry], at: &Vec<usize>) -> (r: Vec<EngineEntry>)
    requires
        forall|i: int| 0 <= i < at@.len() ==> (#[trigger] at@[i]) < entries@.len(),
    ensures
        r@ == picked(entries@, plan::places(at@)),
{
    let mut r: Vec<EngineEntry> = Vec::new();
    let mut i: usize = 0;
    while i < at.len()
        invariant
            i <= at@.len(),
            forall|k: int| 0 <= k < at@.len() ==> (#[trigger] at@[k]) < entries@.len(),
            r@.len() == i,
            forall|k: int| 0 <= k < i ==> #[trigger] r@[k] == entries@[at@[k] as int],
        decreases at@.len() - i,
    {
        let e: &EngineEntry = &entries[at[i]];
        let engine: Option<String> = match &e.engine {
            Some(t) => Some(t.clone()),
            None => None,
        };
        r.push(
            EngineEntry {
                name: e.name.clone(),
                engine,
                config_name: e.config_name.clone(),
                wanted: e.wanted,
            },
        );
        i += 1;
    }
    assert(r@ =~= picked(entries@, plan::places(at@)));
    r
}

/// The claims at some places.
fn pick_claims(claims: &[IndexClaim], at: &Vec<usize>) -> (r: Vec<IndexClaim>)
    requires
        forall|i: int| 0 <= i < at@.len() ==> (#[trigger] at@[i]) < claims@.len(),
    ensures
        r@ == picked(claims@, plan::places(at@)),
{
    let mut r: Vec<IndexClaim> = Vec::new();
    let mut i: usize = 0;
    while i < at.len()
        invariant
            i <= at@.len(),
            forall|k: int| 0 <= k < at@.len() ==> (#[trigger] at@[k]) < claims@.len(),
            r@.len() == i,
            forall|k: int| 0 <= k < i ==> #[trigger] r@[k] == claims@[at@[k] as int],
        decreases at@.len() - i,
    {
        let c: &IndexClaim = &claims[at[i]];
        let engine: Option<String> = match &c.engine {
            Some(t) => Some(t.clone()),
            None => None,
        };
        r.push(
            IndexClaim {
                engine,
                config_name: c.config_name.clone(),
                index: c.index.clone(),
                exact: c.exact,
            },
        );
        i += 1;
    }
    assert(r@ =~= picked(claims@, plan::places(at@)));
    r
}

/// Plans a run. `wanted` says of each dataset whether it is asked for, and `claims` holds what each
/// configuration writes to. Nothing to run, an engine that cannot search for a duration where one is
/// set, and two configurations that would overwrite each other are errors.
pub fn plan_run(
    a: &RunOptions,
    wanted: &[bool],
    entries: &[EngineEntry],
    claims: &[IndexClaim],
) -> (r: Result<RunPlan, String>)
    requires
        claims@.len() == entries@.len(),
    ensures
        match planned(*a, wanted@, entries@, claims@) {
            Ok((datasets, engines)) => r matches Ok(p) && plan::places(p.datasets@) == datasets
                && plan::places(p.engines@) == engines,
            Err(e) => r matches Err(m) && m@ == e,
        },
{
    let datasets: Vec<usize> = select_datasets(wanted, a.datasets.as_slice())?;
    let chosen: Vec<usize> = select_engines(entries, a.engines.as_slice())?;
    let ghost marks = plan::engine_marks(entries@);
    proof {
        assert forall|i: int| 0 <= i < chosen@.len() implies (#[trigger] chosen@[i])
            < entries@.len() by {
            lemma_marked_places(marks, entries@.len() as int, i);
            assert(plan::places(chosen@)[i] == chosen@[i]);
        }
        assert(plan::places(chosen@).len() == chosen@.len());
    }
    let among: Vec<EngineEntry> = pick_entries(entries, &chosen);
    check_durations_supported(a, among.as_slice())?;
    let engines: Vec<usize> = if a.skip_vector_index {
        let first: Vec<usize> = dedup_by_type(among.as_slice());
        let mut kept: Vec<usize> = Vec::new();
        let mut i: usize = 0;
        proof {
            assert forall|k: int| 0 <= k < first@.len() implies (#[trigger] first@[k])
                < chosen@.len() by {
                lemma_marked_places(plan::first_marks(among@), among@.len() as int, k);
                assert(plan::places(first@)[k] == first@[k]);
            }
        }
        while i < first.len()
            invariant
                i <= first@.len(),
                forall|k: int| 0 <= k < first@.len() ==> (#[trigger] first@[k]) < chosen@.len(),
                kept@.len() == i,
                forall|k: int| 0 <= k < i ==> #[trigger] kept@[k] == chosen@[first@[k] as int],
            decreases first@.len() - i,
        {
            kept.push(chosen[first[i]]);
            i += 1;
        }
        assert(plan::places(kept@) =~= picked(plan::places(chosen@), plan::places(first@)));
        kept
    } else {
        chosen
    };
    proof {
        assert(plan::places(engines@) == kept_engines(*a, entries@));
        assert forall|i: int| 0 <= i < engines@.len() implies (#[trigger] engines@[i])
            < claims@.len() by {
            assert(plan::places(engines@)[i] == engines@[i]);
        }
    }
    let made: Vec<IndexClaim> = pick_claims(claims, &engines);
    check_collisions(made.as_slice())?;
    Ok(RunPlan { datasets, engines })
}

/// A configuration of a run: its name, and the type of its engine.
pub struct Configured {
    pub name: String,
    pub engine: Option<String>,
}

/// Where a run stands: the configuration and the dataset that come next, and how many experiments were
/// made.
pub struct Agenda {
    engines: Vec<Configured>,
    datasets: Vec<String>,
    skip_vector_index: bool,
    exit_on_error: bool,
    engine: usize,
    dataset: usize,
    done: u64,
}

/// What comes next in a run.
pub enum Turn {
    /// The configuration is left out, with a warning.
    LeaveOut(String),
    /// A configuration is run on a dataset: their places, the name of the configuration, whether it is
    /// the last, and what is said of it.
    Run { engine: usize, dataset: usize, name: String, is_last: bool, headline: String },
    /// The time is up before this many experiments were made.
    OutOfTime(u64),
    /// Everything was run.
    Finished,
}

/// What is said of an experiment that begins.
pub open spec fn headline(number: nat, total: nat, name: Seq<char>, dataset: Seq<char>) -> Seq<char> {
    "Running experiment ("@ + text::decimal(number) + "/"@ + text::decimal(total) + "): "@ + name + " - "@
        + dataset
}

/// What is said of an experiment that begins.
fn new_headline(number: u64, total: u64, name: &str, dataset: &str) -> (r: String)
    ensures
        r@ == headline(number as nat, total as nat, name@, dataset@),
{
    let mut r: String = "Running experiment (".to_owned();
    r.append(decimal_text(number).as_str());
    r.append("/");
    r.append(decimal_text(total).as_str());
    r.append("): ");
    r.append(name);
    r.append(" - ");
    r.append(dataset);
    r
}

/// What is said of a run whose time is up. The times are shown in seconds.
pub fn out_of_time_note(budget_shown: &str, elapsed_shown: &str, not_started: u64) -> (r: String)
    ensures
        r@ == "Reached --timeout budget ("@ + budget_shown@ + "s, elapsed "@ + elapsed_shown@
            + "s); stopping with "@ + text::decimal(not_started as nat)
            + " experiment(s) not started."@,
{
    let mut r: String = "Reached --timeout budget (".to_owned();
    r.append(budget_shown);
    r.append("s, elapsed ");
    r.append(elapsed_shown);
    r.append("s); stopping with ");
    r.append(decimal_text(not_started).as_str());
    r.append(" experiment(s) not started.");
    r
}

/// A run as a mathematical value.
pub struct AgendaView {
    pub engines: Seq<Configured>,
    pub datasets: Seq<Seq<char>>,
    pub skip_vector_index: bool,
    pub exit_on_error: bool,
    pub engine: int,
    pub dataset: int,
    pub done: nat,
}

/// The type of the engine of a configuration.
pub open spec fn engine_type(c: Configured) -> Seq<char> {
    match c.engine {
        Some(t) => t@,
        None => "unknown"@,
    }
}

/// Whether an engine can run without an index over vectors.
pub open spec fn runs_without_vectors(kind: Seq<char>) -> bool {
    kind == "redis"@ || kind == "valkey"@ || kind == "mongodb"@
}

impl AgendaView {
    /// How many experiments there are.
    pub open spec fn total(self) -> int {
        (self.engines.len() * self.datasets.len()) as int
    }

    /// How many experiments come before the one that is next.
    pub open spec fn passed(self) -> int {
        self.engine * self.datasets.len() + self.dataset
    }

    /// Whether the places are places, and no more experiments were made than have passed.
    pub open spec fn valid(self) -> bool {
        &&& 0 <= self.engine <= self.engines.len()
        &&& 0 <= self.dataset
        &&& self.engine < self.engines.len() ==> self.dataset < self.datasets.len()
        &&& self.engine == self.engines.len() ==> self.dataset == 0
        &&& self.done <= self.passed() <= self.total() <= u64::MAX
    }

    /// Whether the next configuration is left out.
    pub open spec fn leaves_out(self) -> bool {
        self.engine < self.engines.len() && self.skip_vector_index && !runs_without_vectors(
            engine_type(self.engines[self.engine]),
        )
    }

    /// The name that the next configuration is run under.
    pub open spec fn name(self) -> Seq<char> {
        if self.skip_vector_index {
            engine_type(self.engines[self.engine]) + "-no-vector"@
        } else {
            self.engines[self.engine].name@
        }
    }

    /// The run once the next configuration is left out.
    pub open spec fn without_this_engine(self) -> AgendaView {
        AgendaView { engine: self.engine + 1, dataset: 0, ..self }
    }

    /// The run once the next experiment is made.
    pub open spec fn after_one(self) -> AgendaView {
        if self.dataset + 1 < self.datasets.len() {
            AgendaView { dataset: self.dataset + 1, done: self.done + 1, ..self }
        } else {
            AgendaView { engine: self.engine + 1, dataset: 0, done: self.done + 1, ..self }
        }
    }
}

impl View for Agenda {
    type V = AgendaView;

    closed spec fn view(&self) -> AgendaView {
        AgendaView {
            engines: self.engines@,
            datasets: text::texts_view(self.datasets@),
            skip_vector_index: self.skip_vector_index,
            exit_on_error: self.exit_on_error,
            engine: self.engine as int,
            dataset: self.dataset as int,
            done: self.done as nat,
        }
    }
}

/// A run that leaves a configuration out is still valid.
proof fn lemma_left_out(v: AgendaView)
    requires
        v.valid(),
        v.engine < v.engines.len(),
    ensures
        v.without_this_engine().valid(),
{
    let d = v.datasets.len() as int;
    let e = v.engines.len() as int;
    assert((v.engine + 1) * d == v.engine * d + d) by (nonlinear_arith);
    assert((v.engine + 1) * d <= e * d) by (nonlinear_arith)
        requires
            v.engine + 1 <= e,
            d >= 0,
    ;
}

/// A run that has made an experiment is still valid, and one more has passed.
proof fn lemma_after_one(v: AgendaView)
    requires
        v.valid(),
        v.engine < v.engines.len(),
    ensures
        v.after_one().valid(),
        v.after_one().passed() == v.passed() + 1,
        v.done < v.total(),
{
    let d = v.datasets.len() as int;
    let e = v.engines.len() as int;
    assert((v.engine + 1) * d == v.engine * d + d) by (nonlinear_arith);
    assert((v.engine + 1) * d <= e * d) by (nonlinear_arith)
        requires
            v.engine + 1 <= e,
            d >= 0,
    ;
}

impl Agenda {
    /// A run that begins.
    pub fn begin(engines: Vec<Configured>, datasets: Vec<String>, a: &RunOptions) -> (r: Self)
        requires
            engines@.len() > 0,
            datasets@.len() > 0,
            engines@.len() * datasets@.len() <= u64::MAX,
        ensures
            r@.valid(),
            r@ == (AgendaView {
                engines: engines@,
                datasets: text::texts_view(datasets@),
                skip_vector_index: a.skip_vector_index,
                exit_on_error: a.exit_on_error,
                engine: 0,
                dataset: 0,
                done: 0,
            }),
    {
        proof {
            assert(0 * datasets@.len() == 0) by (nonlinear_arith);
            assert(0 <= engines@.len() * datasets@.len()) by (nonlinear_arith);
        }
        Agenda {
            engines,
            datasets,
            skip_vector_index: a.skip_vector_index,
            exit_on_error: a.exit_on_error,
            engine: 0,
            dataset: 0,
            done: 0,
        }
    }

    /// What comes next. A configuration that is left out is left behind; an experiment stays next until
    /// it is settled. `time_is_up` says whether the time of the run is over.
    pub fn next(&mut self, time_is_up: bool) -> (r: Turn)
        requires
            old(self)@.valid(),
        ensures
            final(self)@.valid(),
            final(self)@ == if old(self)@.leaves_out() {
                old(self)@.without_this_engine()
            } else {
                old(self)@
            },
            old(self)@.engine == old(self)@.engines.len() ==> r is Finished,
            old(self)@.leaves_out() ==> (r matches Turn::LeaveOut(m) && m@ == plan::no_vector_warning(
                engine_type(old(self)@.engines[old(self)@.engine]),
            )),
            old(self)@.engine < old(self)@.engines.len() && !old(self)@.leaves_out() ==> if time_is_up {
                r == Turn::OutOfTime((old(self)@.total() - old(self)@.done) as u64)
            } else {
                r matches Turn::Run { engine, dataset, name, is_last, headline: said } && engine
                    == old(self)@.engine && dataset == old(self)@.dataset && name@
                    == old(self)@.name() && is_last == (old(self)@.engine + 1
                    == old(self)@.engines.len()) && said@ == headline(
                    old(self)@.done + 1,
                    old(self)@.total() as nat,
                    name@,
                    old(self)@.datasets[dataset as int],
                )
            },
    {
        let ghost was = self@;
        if self.engine >= self.engines.len() {
            return Turn::Finished;
        }
        let c: &Configured = &self.engines[self.engine];
        let name: String = if self.skip_vector_index {
            let kind: Option<&String> = match &c.engine {
                Some(t) => Some(t),
                None => None,
            };
            match without_vector_index(kind) {
                NoVectorRun::Renamed(n) => n,
                NoVectorRun::NotSupported(m) => {
                    proof {
                        lemma_left_out(was);
                    }
                    self.engine += 1;
                    self.dataset = 0;
                    return Turn::LeaveOut(m);
                },
            }
        } else {
            c.name.clone()
        };
        proof {
            lemma_after_one(was);
        }
        assert(self.engines@.len() * self.datasets@.len() == was.total());
        let total: u64 = self.engines.len() as u64 * self.datasets.len() as u64;
        if time_is_up {
            return Turn::OutOfTime(total - self.done);
        }
        let said: String = new_headline(
            self.done + 1,
            total,
            name.as_str(),
            self.datasets[self.dataset].as_str(),
        );
        Turn::Run {
            engine: self.engine,
            dataset: self.dataset,
            name,
            is_last: self.engine + 1 == self.engines.len(),
            headline: said,
        }
    }

    /// Takes note of how the experiment that was next came out, under the name that its configuration was
    /// run under: the failure with its place, where it failed, and whether the run ends with it.
    pub fn settle(&mut self, name: &str, outcome: Result<(), String>) -> (r: Option<(String, bool)>)
        requires
            old(self)@.valid(),
            old(self)@.engine < old(self)@.engines.len(),
        ensures
            final(self)@.valid(),
            match outcome {
                Ok(_) => r is None && final(self)@ == old(self)@.after_one(),
                Err(e) => r matches Some(failure) && failure.0@ == plan::named_failure(
                    name@,
                    old(self)@.datasets[old(self)@.dataset],
                    e@,
                ) && failure.1 == old(self)@.exit_on_error && final(self)@
                    == if old(self)@.exit_on_error {
                    old(self)@
                } else {
                    old(self)@.after_one()
                },
            },
    {
        proof {
            lemma_after_one(self@);
        }
        let engines: usize = self.engines.len();
        let datasets: usize = self.datasets.len();
        assert(self.engine < engines && self.dataset < datasets);
        let failure: Option<(String, bool)> = match outcome {
            Ok(_) => None,
            Err(e) => {
                let m: String = name_failure(
                    name,
                    self.datasets[self.dataset].as_str(),
                    e.as_str(),
                );
                if self.exit_on_error {
                    return Some((m, true));
                }
                Some((m, false))
            },
        };
        self.done += 1;
        if self.dataset + 1 < datasets {
            self.dataset += 1;
        } else {
            self.engine += 1;
            self.dataset = 0;
        }
        failure
    }
}

/// A run comes to its end: whatever is left out and whatever is made, less of it is left.
pub proof fn runs_end(v: AgendaView)
    requires
        v.valid(),
        v.engine < v.engines.len(),
    ensures
        v.without_this_engine().valid(),
        v.without_this_engine().passed() > v.passed(),
        v.after_one().valid(),
        v.after_one().passed() == v.passed() + 1,
        v.passed() < v.total(),
{
    lemma_left_out(v);
    lemma_after_one(v);
    let d = v.datasets.len() as int;
    assert((v.engine + 1) * d == v.engine * d + d) by (nonlinear_arith);
}

/// Where no configuration is left out and no failure ends the run, every configuration is run on every
/// dataset: what is next is the experiment whose number is one above those that were made.
pub proof fn nothing_is_passed_over(v: AgendaView)
    requires
        v.valid(),
        v.engine < v.engines.len(),
        v.done == v.passed(),
    ensures
        v.after_one().done == v.after_one().passed(),
        v.after_one().engine == v.engines.len() <==> v.after_one().done == v.total(),
{
    lemma_after_one(v);
    let d = v.datasets.len() as int;
    let e = v.engines.len() as int;
    let w = v.after_one();
    assert(w.passed() == w.done);
    if w.engine < e {
        assert((w.engine + 1) * d <= e * d) by (nonlinear_arith)
            requires
                w.engine + 1 <= e,
                d >= 0,
        ;
        assert((w.engine + 1) * d == w.engine * d + d) by (nonlinear_arith);
    }
}

} // verus!
