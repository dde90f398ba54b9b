//! A common start for workers that warm up at their own pace.
//!
//! Every worker holds a ticket, and every ticket settles in one way: the worker is ready, or reports why
//! it could not set itself up, or is lost. The coordinator waits for outcomes and not for a number of
//! arrivals, so a worker that never comes cannot keep it waiting. A start gate is a state; who holds it and
//! wakes the waiting when it changes decides what is done in between.
use vstd::prelude::*;

use crate::sorted_texts::{self, sorted_distinct};
use crate::text::{self, decimal_text, join_texts};

verus! {

/// What the workers are told. Instants are counted from a moment that the coordinator chooses.
#[derive(Debug, Clone, Copy, PartialEq, Eq, Structural)]
pub enum Phase {
    /// Workers still warm up, and none may start.
    Waiting,
    /// Every worker is ready, and the measurement began at this instant.
    Released(u64),
    /// The run is torn down, and waiting workers leave.
    Aborted,
}

/// How a ticket settles.
#[derive(Debug)]
pub enum Outcome {
    Ready,
    Lost,
    Failed(String),
}

/// The state of a common start: how many tickets settled, how many of them are ready and how many lost,
/// why others could not set themselves up, and what the workers are told.
#[derive(Debug)]
pub struct StartGate {
    settled: usize,
    ready: usize,
    lost: usize,
    failures: Vec<String>,
    phase: Phase,
}

/// What a common start is.
#[verifier::ext_equal]
pub struct GateView {
    pub ready: nat,
    pub lost: nat,
    pub failures: Seq<Seq<char>>,
    pub phase: Phase,
}

impl GateView {
    /// How many tickets settled.
    pub open spec fn settled(self) -> nat {
        self.ready + self.lost + self.failures.len()
    }

    /// Whether no worker was lost or failed.
    pub open spec fn clean(self) -> bool {
        self.lost == 0 && self.failures.len() == 0
    }
}

/// What is said of workers that were lost.
pub open spec fn lost_part(n: nat) -> Seq<char> {
    text::decimal(n)
        + " never reached the start gate (thread not started, or panicked during setup)"@
}

/// What is said of workers that were lost.
fn new_lost_part(n: u64) -> (m: String)
    ensures
        m@ == lost_part(n as nat),
{
    let mut m: String = decimal_text(n);
    m.append(" never reached the start gate (thread not started, or panicked during setup)");
    m
}

/// What is said of workers that could not set themselves up.
pub open spec fn failed_part(n: nat, reasons: Seq<char>) -> Seq<char> {
    text::decimal(n)
        + " failed setup: "@
        + reasons
}

/// What is said of workers that could not set themselves up.
fn new_failed_part(n: u64, reasons: &str) -> (m: String)
    ensures
        m@ == failed_part(n as nat, reasons@),
{
    let mut m: String = decimal_text(n);
    m.append(" failed setup: ");
    m.append(reasons);
    m
}

/// What is said of a run without all its workers.
pub open spec fn gate_error(ready: nat, expected: nat, label: Seq<char>, parts: Seq<char>) -> Seq<char> {
    "only "@
        + text::decimal(ready)
        + " of "@
        + text::decimal(expected)
        + " "@
        + label
        + " workers reached the start gate — "@
        + parts
        + ". Refusing to report a run at parallel="@
        + text::decimal(expected)
        + " that measured fewer workers"@
}

/// What is said of a run without all its workers.
fn new_gate_error(ready: u64, expected: u64, label: &str, parts: &str) -> (m: String)
    ensures
        m@ == gate_error(ready as nat, expected as nat, label@, parts@),
{
    let mut m: String = "only ".to_owned();
    m.append(decimal_text(ready).as_str());
    m.append(" of ");
    m.append(decimal_text(expected).as_str());
    m.append(" ");
    m.append(label);
    m.append(" workers reached the start gate — ");
    m.append(parts);
    m.append(". Refusing to report a run at parallel=");
    m.append(decimal_text(expected).as_str());
    m.append(" that measured fewer workers");
    m
}

/// What is wrong with the workers of a run: how many were lost, and how many failed with which reasons,
/// each reason once and in order.
pub open spec fn gate_parts(g: GateView) -> Seq<Seq<char>> {
    let lost = if g.lost > 0 {
        seq![lost_part(g.lost)]
    } else {
        Seq::empty()
    };
    if g.failures.len() > 0 {
        let reasons = sorted_texts::distinct(g.failures, g.failures.len() as int);
        lost.push(failed_part(g.failures.len(), text::joined(reasons, "; "@)))
    } else {
        lost
    }
}

/// What is said of a run without all its workers.
pub open spec fn gate_message(g: GateView, label: Seq<char>, expected: nat) -> Seq<char> {
    gate_error(g.ready, expected, label, text::joined(gate_parts(g), ", "@))
}

/// The state after a ticket settled.
pub open spec fn settled_with(g: GateView, outcome: Outcome) -> GateView {
    match outcome {
        Outcome::Ready => GateView { ready: g.ready + 1, ..g },
        Outcome::Lost => GateView { lost: g.lost + 1, ..g },
        Outcome::Failed(reason) => GateView { failures: g.failures.push(reason@), ..g },
    }
}

/// The state with another phase, where it was still waiting.
pub open spec fn turned_to(g: GateView, phase: Phase) -> GateView {
    if g.phase == Phase::Waiting {
        GateView { phase, ..g }
    } else {
        g
    }
}

/// How the coordinator finds a common start.
pub enum Standing {
    /// Tickets are out, and the start is not aborted.
    Pending,
    /// All workers are ready.
    AllReady,
    /// Workers were lost or failed, or the start is aborted.
    Short,
}

/// How the coordinator finds a common start of that many workers.
pub open spec fn learned(g: GateView, expected: nat) -> Standing {
    if g.phase != Phase::Aborted && g.settled() < expected {
        Standing::Pending
    } else if g.phase != Phase::Aborted && g.clean() {
        Standing::AllReady
    } else {
        Standing::Short
    }
}

/// The state after the coordinator looked: a start without all its workers is aborted.
pub open spec fn waited(g: GateView, expected: nat) -> GateView {
    if learned(g, expected) is Short {
        GateView { phase: Phase::Aborted, ..g }
    } else {
        g
    }
}

impl View for StartGate {
    type V = GateView;

    closed spec fn view(&self) -> GateView {
        GateView {
            ready: self.ready as nat,
            lost: self.lost as nat,
            failures: text::texts_view(self.failures@),
            phase: self.phase,
        }
    }
}

impl StartGate {
    /// Whether every settled ticket is counted once.
    pub closed spec fn well_formed(&self) -> bool {
        self.settled == self.ready + self.lost + self.failures@.len()
    }

    /// A gate at which nobody arrived yet.
    pub fn new() -> (r: Self)
        ensures
            r.well_formed(),
            r@ == (GateView {
                ready: 0,
                lost: 0,
                failures: Seq::empty(),
                phase: Phase::Waiting,
            }),
    {
        let r: StartGate = StartGate {
            settled: 0,
            ready: 0,
            lost: 0,
            failures: Vec::new(),
            phase: Phase::Waiting,
        };
        assert(text::texts_view(r.failures@) =~= Seq::empty());
        r
    }

    /// A ticket for one worker.
    pub fn ticket(&self) -> (r: WorkerTicket)
        ensures
            !r.settled,
    {
        WorkerTicket { settled: false }
    }

    /// What the workers are told.
    pub fn phase(&self) -> (r: Phase)
        ensures
            r == self@.phase,
    {
        self.phase
    }

    /// Counts a ticket that settled.
    pub fn settle(&mut self, outcome: Outcome)
        requires
            old(self).well_formed(),
            old(self)@.settled() < usize::MAX,
        ensures
            final(self).well_formed(),
            final(self)@ == settled_with(old(self)@, outcome),
    {
        let ghost before = text::texts_view(self.failures@);
        self.settled = self.settled + 1;
        match outcome {
            Outcome::Ready => {
                self.ready = self.ready + 1;
            },
            Outcome::Lost => {
                self.lost = self.lost + 1;
            },
            Outcome::Failed(reason) => {
                let ghost text = reason@;
                self.failures.push(reason);
                assert(text::texts_view(self.failures@) =~= before.push(text));
            },
        }
    }

    /// What the coordinator learns: nothing while tickets are out and the start is not aborted; then
    /// whether all workers are ready, or what is wrong. What is wrong aborts the start, so that waiting
    /// workers leave.
    pub fn wait_ready(&mut self, label: &str, expected: usize) -> (r: Option<Result<(), String>>)
        requires
            old(self).well_formed(),
        ensures
            final(self).well_formed(),
            final(self)@ == waited(old(self)@, expected as nat),
            match learned(old(self)@, expected as nat) {
                Standing::Pending => r is None,
                Standing::AllReady => r is Some && r->0 is Ok,
                Standing::Short => r matches Some(x) && (x matches Err(e) && e@ == gate_message(
                    old(self)@,
                    label@,
                    expected as nat,
                )),
            },
    {
        assert(text::texts_view(self.failures@).len() == self.failures@.len());
        if self.settled < expected && self.phase != Phase::Aborted {
            return None;
        }
        if self.lost == 0 && self.failures.len() == 0 && self.phase != Phase::Aborted {
            return Some(Ok(()));
        }
        self.phase = Phase::Aborted;
        let mut parts: Vec<String> = Vec::new();
        assert(text::texts_view(parts@) =~= Seq::empty());
        if self.lost > 0 {
            parts.push(new_lost_part(self.lost as u64));
            assert(text::texts_view(parts@) =~= seq![lost_part(self.lost as nat)]);
        }
        if self.failures.len() > 0 {
            let reasons: Vec<String> = sorted_distinct(self.failures.as_slice());
            let shown: String = join_texts(reasons.as_slice(), "; ");
            let part: String = new_failed_part(self.failures.len() as u64, shown.as_str());
            let ghost before = text::texts_view(parts@);
            parts.push(part);
            assert(text::texts_view(parts@) =~= before.push(part@));
        }
        let shown: String = join_texts(parts.as_slice(), ", ");
        Some(Err(new_gate_error(self.ready as u64, expected as u64, label, shown.as_str())))
    }

    /// Starts the measurement and lets every waiting worker go. A gate that was aborted stays so.
    pub fn release(&mut self, at: u64)
        requires
            old(self).well_formed(),
        ensures
            final(self).well_formed(),
            final(self)@ == turned_to(old(self)@, Phase::Released(at)),
    {
        if self.phase == Phase::Waiting {
            self.phase = Phase::Released(at);
        }
    }

    /// Tears the start down. A run that started is not aborted any more.
    pub fn abort(&mut self)
        requires
            old(self).well_formed(),
        ensures
            final(self).well_formed(),
            final(self)@ == turned_to(old(self)@, Phase::Aborted),
    {
        if self.phase == Phase::Waiting {
            self.phase = Phase::Aborted;
        }
    }
}

/// What a waiting worker is told.
#[derive(Debug, Clone, Copy, PartialEq, Eq, Structural)]
pub enum Arrival {
    /// It waits.
    Parked,
    /// It starts: the measurement began at this instant.
    Started(u64),
    /// It leaves without measuring.
    Dismissed,
}

/// What a worker is told in a phase.
pub open spec fn told(phase: Phase) -> Arrival {
    match phase {
        Phase::Waiting => Arrival::Parked,
        Phase::Released(at) => Arrival::Started(at),
        Phase::Aborted => Arrival::Dismissed,
    }
}

/// The claim of one worker on a gate. It settles once, however the worker ends.
#[derive(Debug)]
pub struct WorkerTicket {
    pub settled: bool,
}

impl WorkerTicket {
    /// Reports that the worker is ready, where it did not yet, and says what it is told. A worker that
    /// waits asks again when that changes; one that is dismissed returns without measuring.
    #[must_use]
    pub fn arrive_and_wait(&mut self, gate: &mut StartGate) -> (r: Arrival)
        requires
            old(gate).well_formed(),
            !old(self).settled ==> old(gate)@.settled() < usize::MAX,
        ensures
            final(gate).well_formed(),
            final(self).settled,
            final(gate)@ == if old(self).settled {
                old(gate)@
            } else {
                settled_with(old(gate)@, Outcome::Ready)
            },
            r == told(old(gate)@.phase),
    {
        if !self.settled {
            self.settled = true;
            gate.settle(Outcome::Ready);
        }
        match gate.phase() {
            Phase::Released(at) => Arrival::Started(at),
            Phase::Aborted => Arrival::Dismissed,
            Phase::Waiting => Arrival::Parked,
        }
    }

    /// Reports that the worker could not set itself up.
    pub fn fail(&mut self, gate: &mut StartGate, reason: String)
        requires
            !old(self).settled,
            old(gate).well_formed(),
            old(gate)@.settled() < usize::MAX,
        ensures
            final(gate).well_formed(),
            final(self).settled,
            final(gate)@ == settled_with(old(gate)@, Outcome::Failed(reason)),
    {
        self.settled = true;
        gate.settle(Outcome::Failed(reason));
    }

    /// Gives the ticket back: a ticket that did not settle by then is lost.
    pub fn give_back(&mut self, gate: &mut StartGate)
        requires
            old(gate).well_formed(),
            !old(self).settled ==> old(gate)@.settled() < usize::MAX,
        ensures
            final(gate).well_formed(),
            final(self).settled,
            final(gate)@ == if old(self).settled {
                old(gate)@
            } else {
                settled_with(old(gate)@, Outcome::Lost)
            },
    {
        if !self.settled {
            self.settled = true;
            gate.settle(Outcome::Lost);
        }
    }
}

/// A guard that aborts a gate when it is given up, unless the run started.
#[derive(Debug)]
pub struct AbortGateOnDrop {
    armed: bool,
}

impl AbortGateOnDrop {
    /// Whether the guard was not given up yet.
    pub closed spec fn armed(&self) -> bool {
        self.armed
    }

    /// A guard.
    pub fn new() -> (r: Self)
        ensures
            r.armed(),
    {
        AbortGateOnDrop { armed: true }
    }

    /// Gives the guard up.
    pub fn give_up(&mut self, gate: &mut StartGate)
        requires
            old(gate).well_formed(),
        ensures
            final(gate).well_formed(),
            !final(self).armed(),
            final(gate)@ == if old(self).armed() {
                turned_to(old(gate)@, Phase::Aborted)
            } else {
                old(gate)@
            },
    {
        if self.armed {
            self.armed = false;
            gate.abort();
        }
    }
}

/// What is said of a worker that could not be started.
pub open spec fn refused_error(label: Seq<char>, number: nat, planned: nat, why: Seq<char>) -> Seq<char> {
    "could not start "@
        + label
        + " worker "@
        + text::decimal(number)
        + " of "@
        + text::decimal(planned)
        + ": "@
        + why
        + ". The OS refused the thread — lower `parallel`, or raise the thread/process limit (ulimit -u, cgroup pids.max)"@
}

/// What is said of a worker that could not be started.
fn new_refused_error(label: &str, number: u64, planned: u64, why: &str) -> (m: String)
    ensures
        m@ == refused_error(label@, number as nat, planned as nat, why@),
{
    let mut m: String = "could not start ".to_owned();
    m.append(label);
    m.append(" worker ");
    m.append(decimal_text(number).as_str());
    m.append(" of ");
    m.append(decimal_text(planned).as_str());
    m.append(": ");
    m.append(why);
    m.append(". The OS refused the thread — lower `parallel`, or raise the thread/process limit (ulimit -u, cgroup pids.max)");
    m
}

/// What is said of a run with fewer workers than it is labelled with.
pub open spec fn short_error(label: Seq<char>, spawned: nat, planned: nat) -> Seq<char> {
    label
        + " spawned "@
        + text::decimal(spawned)
        + " workers but the run is labelled parallel="@
        + text::decimal(planned)
}

/// What is said of a run with fewer workers than it is labelled with.
fn new_short_error(label: &str, spawned: u64, planned: u64) -> (m: String)
    ensures
        m@ == short_error(label@, spawned as nat, planned as nat),
{
    let mut m: String = label.to_owned();
    m.append(" spawned ");
    m.append(decimal_text(spawned).as_str());
    m.append(" workers but the run is labelled parallel=");
    m.append(decimal_text(planned).as_str());
    m
}

/// What is said of workers that panicked.
pub open spec fn panicked_error(panicked: nat, expected: nat, label: Seq<char>) -> Seq<char> {
    text::decimal(panicked)
        + " of "@
        + text::decimal(expected)
        + " "@
        + label
        + " workers panicked mid-run; discarding the run rather than reporting partial results"@
}

/// What is said of workers that panicked.
fn new_panicked_error(panicked: u64, expected: u64, label: &str) -> (m: String)
    ensures
        m@ == panicked_error(panicked as nat, expected as nat, label@),
{
    let mut m: String = decimal_text(panicked);
    m.append(" of ");
    m.append(decimal_text(expected).as_str());
    m.append(" ");
    m.append(label);
    m.append(" workers panicked mid-run; discarding the run rather than reporting partial results");
    m
}

/// What is said of a worker that could not be started. `index` counts from zero.
pub fn spawn_refused(label: &str, index: u64, planned: u64, why: &str) -> (r: String)
    requires
        index < u64::MAX,
    ensures
        r@ == refused_error(label@, (index + 1) as nat, planned as nat, why@),
{
    new_refused_error(label, index + 1, planned, why)
}

/// Checks that as many workers were started as the run is labelled with.
pub fn check_spawned(label: &str, spawned: usize, planned: usize) -> (r: Result<(), String>)
    ensures
        spawned == planned ==> r is Ok,
        spawned != planned ==> (r matches Err(e) && e@ == short_error(
            label@,
            spawned as nat,
            planned as nat,
        )),
{
    if spawned != planned {
        return Err(new_short_error(label, spawned as u64, planned as u64));
    }
    Ok(())
}

/// Checks that no worker panicked.
pub fn check_joined(label: &str, panicked: usize, expected: usize) -> (r: Result<(), String>)
    ensures
        panicked == 0 ==> r is Ok,
        panicked > 0 ==> (r matches Err(e) && e@ == panicked_error(
            panicked as nat,
            expected as nat,
            label@,
        )),
{
    if panicked > 0 {
        return Err(new_panicked_error(panicked as u64, expected as u64, label));
    }
    Ok(())
}

/// The coordinator is never kept waiting by a worker that ended: once as many tickets settled as there
/// are workers, in whatever way, it learns how the run stands.
pub proof fn settled_tickets_end_the_wait(g: GateView, outcomes: Seq<Outcome>, expected: nat)
    requires
        outcomes.len() >= expected,
    ensures
        after(g, outcomes, outcomes.len() as int).settled() >= expected,
{
    lemma_each_settles(g, outcomes, outcomes.len() as int);
}

/// The state after the first `n` outcomes.
pub open spec fn after(g: GateView, outcomes: Seq<Outcome>, n: int) -> GateView
    decreases n,
{
    if n <= 0 {
        g
    } else {
        settled_with(after(g, outcomes, n - 1), outcomes[n - 1])
    }
}

/// Every outcome settles one ticket.
proof fn lemma_each_settles(g: GateView, outcomes: Seq<Outcome>, n: int)
    requires
        0 <= n <= outcomes.len(),
    ensures
        after(g, outcomes, n).settled() == g.settled() + n,
    decreases n,
{
    if n > 0 {
        lemma_each_settles(g, outcomes, n - 1);
    }
}

/// A run is let go only with all its workers: where the coordinator finds all workers ready, as many are
/// ready as were expected.
pub proof fn a_clean_start_has_every_worker(g: GateView, expected: nat)
    requires
        learned(g, expected) is AllReady,
    ensures
        g.ready >= expected,
{
}

/// What can happen at a gate: a ticket settles, the coordinator looks, it lets the workers go, or the start
/// is torn down.
pub enum Act {
    Settle(Outcome),
    Wait(nat),
    Release(u64),
    Abort,
}

/// The state after something happened.
pub open spec fn acted(g: GateView, act: Act) -> GateView {
    match act {
        Act::Settle(outcome) => settled_with(g, outcome),
        Act::Wait(expected) => waited(g, expected),
        Act::Release(at) => turned_to(g, Phase::Released(at)),
        Act::Abort => turned_to(g, Phase::Aborted),
    }
}

/// The state after the first `n` things happened.
pub open spec fn acted_all(g: GateView, acts: Seq<Act>, n: int) -> GateView
    decreases n,
{
    if n <= 0 {
        g
    } else {
        acted(acted_all(g, acts, n - 1), acts[n - 1])
    }
}

/// An aborted gate dismisses every worker, whatever happens at it.
proof fn lemma_aborted_stays(g: GateView, acts: Seq<Act>, n: int)
    requires
        g.phase == Phase::Aborted,
    ensures
        acted_all(g, acts, n).phase == Phase::Aborted,
    decreases n,
{
    if n > 0 {
        lemma_aborted_stays(g, acts, n - 1);
    }
}

/// After a wait that failed every worker is dismissed, whatever is settled, released or aborted then.
pub proof fn a_failed_wait_dismisses_every_worker(g: GateView, expected: nat, acts: Seq<Act>)
    requires
        learned(g, expected) is Short,
    ensures
        told(acted_all(waited(g, expected), acts, acts.len() as int).phase) == Arrival::Dismissed,
{
    lemma_aborted_stays(waited(g, expected), acts, acts.len() as int);
}

/// A released gate tells its instant, whatever happens at it but a wait.
proof fn lemma_released_stays(g: GateView, acts: Seq<Act>, n: int)
    requires
        g.phase is Released,
        0 <= n <= acts.len(),
        forall|i: int| 0 <= i < acts.len() ==> !(#[trigger] acts[i] is Wait),
    ensures
        acted_all(g, acts, n).phase == g.phase,
    decreases n,
{
    if n > 0 {
        lemma_released_stays(g, acts, n - 1);
        assert(!(acts[n - 1] is Wait));
    }
}

/// Every worker of a run that was let go starts at the one instant of its release, whenever it asks and
/// whatever is settled, released or aborted in between. A coordinator that waits again can still abort the
/// start, where a worker was lost or failed.
pub proof fn every_worker_starts_at_the_first_release(g: GateView, at: u64, acts: Seq<Act>)
    requires
        g.phase == Phase::Waiting,
        forall|i: int| 0 <= i < acts.len() ==> !(#[trigger] acts[i] is Wait),
    ensures
        told(acted_all(turned_to(g, Phase::Released(at)), acts, acts.len() as int).phase)
            == Arrival::Started(at),
{
    lemma_released_stays(turned_to(g, Phase::Released(at)), acts, acts.len() as int);
}

/// A second release changes nothing, and nothing releases what was aborted.
pub proof fn a_second_release_changes_nothing(g: GateView, first: u64, second: u64)
    ensures
        turned_to(turned_to(g, Phase::Released(first)), Phase::Released(second)) == turned_to(
            g,
            Phase::Released(first),
        ),
        g.phase == Phase::Aborted ==> turned_to(g, Phase::Released(second)) == g,
{
}

/// To abort dismisses the workers of a start that was not released, and changes nothing at one that was;
/// the tickets that settled stay settled either way.
pub proof fn to_abort_is_for_what_was_not_released(g: GateView)
    ensures
        g.phase is Released ==> turned_to(g, Phase::Aborted) == g,
        !(g.phase is Released) ==> turned_to(g, Phase::Aborted) == (GateView {
            phase: Phase::Aborted,
            ..g
        }),
{
}

/// What the workers are told is told for good: a gate that was released is not aborted, and one that was
/// aborted is not released.
pub proof fn the_signal_is_final(g: GateView, first: Phase, second: Phase)
    requires
        first != Phase::Waiting,
    ensures
        turned_to(turned_to(g, first), second) == turned_to(g, first),
{
}

/// The outcomes among the first `n` that are ready.
pub open spec fn places_of_ready(outcomes: Seq<Outcome>, n: int) -> Set<int> {
    Set::new(|i: int| 0 <= i < n && outcomes[i] is Ready)
}

/// The outcomes among the first `n` that are lost.
pub open spec fn places_of_lost(outcomes: Seq<Outcome>, n: int) -> Set<int> {
    Set::new(|i: int| 0 <= i < n && outcomes[i] is Lost)
}

/// Every ticket is counted as what became of it: ready where the worker is ready, lost where it was lost, and
/// with its reason where it failed.
pub proof fn every_ticket_is_counted_as_what_it_is(g: GateView, outcomes: Seq<Outcome>, n: int)
    requires
        0 <= n <= outcomes.len(),
    ensures
        places_of_ready(outcomes, n).finite() && places_of_lost(outcomes, n).finite(),
        after(g, outcomes, n).ready == g.ready + places_of_ready(outcomes, n).len(),
        after(g, outcomes, n).lost == g.lost + places_of_lost(outcomes, n).len(),
        after(g, outcomes, n).settled() == g.settled() + n,
        g.failures.is_prefix_of(after(g, outcomes, n).failures),
        n > 0 ==> (outcomes[n - 1] matches Outcome::Failed(reason) ==> after(
            g,
            outcomes,
            n,
        ).failures.last() == reason@),
        after(g, outcomes, n).phase == g.phase,
    decreases n,
{
    let ready = places_of_ready(outcomes, n);
    let lost = places_of_lost(outcomes, n);
    if n == 0 {
        assert(ready =~= Set::empty());
        assert(lost =~= Set::empty());
    } else {
        every_ticket_is_counted_as_what_it_is(g, outcomes, n - 1);
        let ready_before = places_of_ready(outcomes, n - 1);
        let lost_before = places_of_lost(outcomes, n - 1);
        if outcomes[n - 1] is Ready {
            assert(ready =~= ready_before.insert(n - 1));
        } else {
            assert(ready =~= ready_before);
        }
        if outcomes[n - 1] is Lost {
            assert(lost =~= lost_before.insert(n - 1));
        } else {
            assert(lost =~= lost_before);
        }
    }
}

/// A start at which a worker was lost or failed is never let go, and one at which all are ready always is:
/// once every ticket settled the coordinator finds it ready exactly where nobody is missing.
pub proof fn a_start_is_let_go_with_all_or_none(g: GateView, expected: nat)
    requires
        g.phase != Phase::Aborted,
    ensures
        g.ready + g.lost + g.failures.len() < expected ==> learned(g, expected) is Pending,
        g.ready + g.lost + g.failures.len() >= expected && g.lost == 0 && g.failures.len() == 0
            ==> learned(g, expected) is AllReady && waited(g, expected) == g,
        g.ready + g.lost + g.failures.len() >= expected && (g.lost > 0 || g.failures.len() > 0)
            ==> learned(g, expected) is Short && waited(g, expected).phase == Phase::Aborted,
{
}

/// What is said of a start that was not let go names how many workers were ready and how many were expected.
pub proof fn a_short_start_is_explained(g: GateView, label: Seq<char>, expected: nat)
    ensures
        text::holds_text(gate_message(g, label, expected), text::decimal(g.ready)),
        text::holds_text(gate_message(g, label, expected), text::decimal(expected)),
        gate_parts(g).len() == (if g.lost > 0 {
            1int
        } else {
            0
        }) + (if g.failures.len() > 0 {
            1int
        } else {
            0
        }),
        g.lost > 0 ==> text::decimal(g.lost).is_prefix_of(gate_parts(g)[0]),
        g.failures.len() > 0 ==> text::decimal(g.failures.len()).is_prefix_of(gate_parts(g).last()),
{
    let parts = text::joined(gate_parts(g), ", "@);
    let ready = text::decimal(g.ready);
    let all = text::decimal(expected);
    let middle = " workers reached the start gate — "@;
    let refusing = ". Refusing to report a run at parallel="@;
    let end = " that measured fewer workers"@;
    let whole = gate_message(g, label, expected);
    let rest = " "@ + label + middle + parts + refusing + all + end;
    assert(whole =~= "only "@ + ready + (" of "@ + all + rest));
    text::a_text_holds_its_parts("only "@, ready, " of "@ + all + rest);
    assert(whole =~= ("only "@ + ready + " of "@) + all + rest);
    text::a_text_holds_its_parts("only "@ + ready + " of "@, all, rest);
}

} // verus!
