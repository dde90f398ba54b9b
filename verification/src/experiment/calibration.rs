//! The calibration of a search parameter: a sweep that halves an interval until the precision that was
//! aimed at is met, or no value is left between.
use vstd::prelude::*;

use crate::experiment::results::{InnerSearchParams, SearchParams};
use crate::float_bits::{self, below64};
use crate::json::{self, int_value, new_members, put_member, text_value, Json, JsonView};
use crate::text::{self, same_text, signed_decimal_text};

verus! {

/// The largest value that is tried.
pub const MAX_VALUE: i64 = 1000;

/// The smallest value that is tried where the number of results is not set.
pub const MIN_VALUE: i64 = 10;

/// The middle of two numbers, rounded towards zero.
pub open spec fn midpoint(a: int, b: int) -> int {
    if a + b >= 0 {
        (a + b) / 2
    } else {
        -((-(a + b)) / 2)
    }
}

/// The middle of two numbers, rounded towards zero.
fn middle(a: i64, b: i64) -> (r: i64)
    ensures
        r == midpoint(a as int, b as int),
{
    let sum: i128 = a as i128 + b as i128;
    let half: i128 = if sum >= 0 {
        sum / 2
    } else {
        -((-sum) / 2)
    };
    half as i64
}

/// The state of a sweep: the interval, which of its ends were tried, the value that is tried now, and
/// the one before with the bit pattern of the precision that was measured there, where there was one.
#[derive(Debug, Clone, Copy, PartialEq, Eq, Structural)]
pub struct Sweep {
    pub lower: i64,
    pub upper: i64,
    pub lower_visited: bool,
    pub upper_visited: bool,
    pub current: i64,
    pub previous: i64,
    pub previous_precision: Option<u64>,
}

/// What a search at the current value gave: the bit pattern of its precision, whether that is the
/// target up to rounding, and whether the value before, where there was one, came closer.
#[derive(Debug, Clone, Copy, PartialEq, Eq, Structural)]
pub struct Observation {
    pub precision: u64,
    pub on_target: bool,
    pub previous_is_closer: bool,
}

/// What follows: another value is tried, or the sweep is over.
#[derive(Debug, Clone, Copy, PartialEq, Eq, Structural)]
pub enum SweepStep {
    Try(i64),
    Finished { value: i64, precision: u64 },
}

/// The smallest value that is tried.
pub open spec fn least_value(top: Option<i64>) -> i64 {
    match top {
        Some(t) => t,
        None => MIN_VALUE,
    }
}

/// The smallest value that is tried: the number of results, where it is set.
pub fn min_value(top: Option<i64>) -> (r: i64)
    ensures
        r == least_value(top),
{
    match top {
        Some(t) => t,
        None => MIN_VALUE,
    }
}

/// The number of results that the ceiling of a calibration is taken at.
pub open spec fn ceiling_top(top: Option<i64>, first_row: Option<usize>) -> Option<usize> {
    match top {
        Some(t) => if 0 <= t <= usize::MAX {
            Some(t as usize)
        } else {
            first_row
        },
        None => first_row,
    }
}

/// The number of results that the ceiling of a calibration is taken at: the one that is set, where it
/// is a number of results, else the width of the first row of the ground truth.
pub fn calibration_top(top: Option<i64>, first_row: Option<usize>) -> (r: Option<usize>)
    ensures
        r == ceiling_top(top, first_row),
{
    match top {
        Some(t) => if 0 <= t && t as u128 <= usize::MAX as u128 {
            Some(t as usize)
        } else {
            first_row
        },
        None => first_row,
    }
}

impl Sweep {
    /// Whether the value that is tried is the middle of the interval.
    pub open spec fn well_formed(&self) -> bool {
        self.current == midpoint(self.lower as int, self.upper as int)
    }

    /// The length of the interval.
    pub open spec fn gap(&self) -> int {
        if self.lower <= self.upper {
            self.upper - self.lower
        } else {
            self.lower - self.upper
        }
    }

    /// Whether a value lies in the interval.
    pub open spec fn spans(&self, value: int) -> bool {
        self.lower <= value <= self.upper || self.upper <= value <= self.lower
    }

    /// The interval after a search whose precision is above the target, or not.
    pub open spec fn narrowed(&self, above: bool) -> Sweep {
        if above {
            Sweep { upper: self.current, upper_visited: true, ..*self }
        } else {
            Sweep { lower: self.current, lower_visited: true, ..*self }
        }
    }

    /// Whether the middle of the interval is an end that was tried.
    pub open spec fn converged(&self) -> bool {
        let next = midpoint(self.lower as int, self.upper as int);
        (self.lower_visited && next == self.lower) || (self.upper_visited && next == self.upper)
    }

    /// The state and the step after a search at the current value. A precision on the target ends the
    /// sweep there; one above it makes the value the upper end, another the lower end. The sweep ends
    /// where the next value would be an end that was tried, with the closer one of the last two values.
    pub open spec fn after(self, target: u64, seen: Observation) -> (Sweep, SweepStep) {
        let here = SweepStep::Finished { value: self.current, precision: seen.precision };
        let narrowed = self.narrowed(float_bits::less64(target, seen.precision));
        let next = midpoint(narrowed.lower as int, narrowed.upper as int) as i64;
        if seen.on_target {
            (self, here)
        } else if narrowed.converged() {
            match self.previous_precision {
                Some(p) => if seen.previous_is_closer {
                    (self, SweepStep::Finished { value: self.previous, precision: p })
                } else {
                    (self, here)
                },
                None => (self, here),
            }
        } else {
            (
                Sweep {
                    current: next,
                    previous: self.current,
                    previous_precision: Some(seen.precision),
                    ..narrowed
                },
                SweepStep::Try(next),
            )
        }
    }

    /// Whether the precision of the value before is among those that were measured.
    pub open spec fn backed_by(self, measured: Set<(i64, u64)>) -> bool {
        self.previous_precision matches Some(p) ==> measured.contains((self.previous, p))
    }

    /// The start of a sweep.
    pub fn begin(top: Option<i64>) -> (r: Self)
        ensures
            r.well_formed(),
            r.lower == least_value(top),
            r.upper == MAX_VALUE,
            !r.lower_visited,
            !r.upper_visited,
            r.previous == r.current,
            r.previous_precision is None,
    {
        let lower: i64 = min_value(top);
        let current: i64 = middle(lower, MAX_VALUE);
        Sweep {
            lower,
            upper: MAX_VALUE,
            lower_visited: false,
            upper_visited: false,
            current,
            previous: current,
            previous_precision: None,
        }
    }

    /// The step after a search at the current value.
    pub fn calibrate(&mut self, target: u64, seen: Observation) -> (r: SweepStep)
        requires
            old(self).well_formed(),
        ensures
            final(self).well_formed(),
            (*final(self), r) == old(self).after(target, seen),
    {
        let here: SweepStep = SweepStep::Finished {
            value: self.current,
            precision: seen.precision,
        };
        if seen.on_target {
            return here;
        }
        let mut narrowed: Sweep = *self;
        if below64(target, seen.precision) {
            narrowed.upper = self.current;
            narrowed.upper_visited = true;
        } else {
            narrowed.lower = self.current;
            narrowed.lower_visited = true;
        }
        let next: i64 = middle(narrowed.lower, narrowed.upper);
        if (narrowed.lower_visited && next == narrowed.lower) || (narrowed.upper_visited && next
            == narrowed.upper) {
            return match self.previous_precision {
                Some(p) => if seen.previous_is_closer {
                    SweepStep::Finished { value: self.previous, precision: p }
                } else {
                    here
                },
                None => here,
            };
        }
        narrowed.previous = self.current;
        narrowed.previous_precision = Some(seen.precision);
        narrowed.current = next;
        *self = narrowed;
        SweepStep::Try(next)
    }
}

/// What a sweep ends with was measured: the precision that it reports is one that a search at the value
/// that it reports gave.
pub proof fn outcomes_were_measured(
    s: Sweep,
    target: u64,
    seen: Observation,
    measured: Set<(i64, u64)>,
)
    requires
        s.backed_by(measured),
    ensures
        ({
            let (next, step) = s.after(target, seen);
            let all = measured.insert((s.current, seen.precision));
            &&& next.backed_by(all)
            &&& step matches SweepStep::Finished { value, precision } ==> all.contains(
                (value, precision),
            )
        }),
{
}

/// A sweep comes to an end: every step that goes on makes the interval shorter.
pub proof fn sweeps_narrow(s: Sweep, above: bool)
    requires
        s.well_formed(),
        !s.narrowed(above).converged(),
    ensures
        s.narrowed(above).gap() < s.gap(),
{
}

/// The value that is tried lies in the interval, and every later interval lies in the earlier one: no
/// value outside the first interval is ever tried.
pub proof fn sweeps_stay_inside(s: Sweep, above: bool, value: int)
    requires
        s.well_formed(),
    ensures
        s.spans(s.current as int),
        s.narrowed(above).spans(value) ==> s.spans(value),
{
}

/// The name of a parameter as engines read it: the spelling in capitals is the same parameter.
pub open spec fn canonical(knob: Seq<char>) -> Seq<char> {
    if knob == "EF"@ {
        "ef"@
    } else {
        knob
    }
}

/// The name of a parameter as engines read it.
pub fn canonical_knob_name(knob: &str) -> (r: &str)
    ensures
        r@ == canonical(knob@),
{
    if same_text(knob, "EF") {
        "ef"
    } else {
        knob
    }
}

/// The parameters of an engine as a list, where there are any.
pub open spec fn extra_view(inner: Option<InnerSearchParams>) -> Seq<(Seq<char>, JsonView)> {
    match inner {
        Some(p) => match p.extra {
            Some(e) => json::members_view(e@),
            None => json::no_members(),
        },
        None => json::no_members(),
    }
}

/// The breadth of a search, where it is set.
pub open spec fn ef_of(inner: Option<InnerSearchParams>) -> Option<i64> {
    match inner {
        Some(p) => p.ef,
        None => None,
    }
}

/// Sets a parameter of a search to a value. The breadth of the search has a field of its own; another
/// parameter goes to those of the engine.
pub fn set_knob(params: &mut SearchParams, knob: &str, value: i64)
    ensures
        *final(params) == (SearchParams {
            search_params: final(params).search_params,
            ..*old(params)
        }),
        final(params).search_params is Some,
        canonical(knob@) == "ef"@ ==> ef_of(final(params).search_params) == Some(value)
            && extra_view(final(params).search_params) == extra_view(old(params).search_params),
        canonical(knob@) != "ef"@ ==> ef_of(final(params).search_params) == ef_of(
            old(params).search_params,
        ) && extra_view(final(params).search_params) == json::put(
            extra_view(old(params).search_params),
            canonical(knob@),
            json::int_view(value),
        ),
{
    let name: &str = canonical_knob_name(knob);
    let inner: Option<InnerSearchParams> = params.search_params.take();
    let (ef, extra): (Option<i64>, Option<Vec<(String, Json)>>) = match inner {
        Some(p) => (p.ef, p.extra),
        None => (None, None),
    };
    if same_text(name, "ef") {
        params.search_params = Some(InnerSearchParams { ef: Some(value), extra });
    } else {
        let mut members: Vec<(String, Json)> = match extra {
            Some(e) => e,
            None => new_members(),
        };
        put_member(&mut members, name, int_value(value));
        params.search_params = Some(InnerSearchParams { ef, extra: Some(members) });
    }
}

/// The numbers of a calibration, as JSON numbers and as texts with four decimals, and whether the
/// target was met up to rounding.
pub struct CalibrationNumbers {
    pub reached_target: bool,
    pub achieved: Json,
    pub target: Json,
    /// The most that the ground truth allows, or null where that is not known.
    pub ceiling: Json,
    pub achieved_shown: String,
    pub target_shown: String,
}

/// The outcome of a calibration.
pub struct CalibrationOutcome {
    pub param: String,
    pub value: i64,
    pub target: Json,
    pub achieved: Json,
    pub reached_target: bool,
    pub ceiling: Json,
    /// Why the target was not met, where it was not.
    pub note: Option<String>,
}

/// What is said where the largest value was reached.
pub open spec fn pinned_note(param: Seq<char>, max: int) -> Seq<char> {
    ", with `"@
        + param
        + "` pinned at the maximum swept value ("@
        + text::signed_decimal(max)
        + ")"@
}

/// What is said where the largest value was reached.
fn new_pinned_note(param: &str, max: i64) -> (m: String)
    ensures
        m@ == pinned_note(param@, max as int),
{
    let mut m: String = ", with `".to_owned();
    m.append(param);
    m.append("` pinned at the maximum swept value (");
    m.append(signed_decimal_text(max).as_str());
    m.append(")");
    m
}

/// What is said of a target that was not met.
pub open spec fn missed_note(param: Seq<char>, min: int, max: int, achieved: Seq<char>, target: Seq<char>, pinned: Seq<char>) -> Seq<char> {
    "the sweep of `"@
        + param
        + "` over ["@
        + text::signed_decimal(min)
        + ", "@
        + text::signed_decimal(max)
        + "] topped out at mean_precision_at_returned="@
        + achieved
        + ", below the target "@
        + target
        + pinned
        + ". The reported value is the closest point found, not a value that meets the target."@
}

/// What is said of a target that was not met.
fn new_missed_note(param: &str, min: i64, max: i64, achieved: &str, target: &str, pinned: &str) -> (m: String)
    ensures
        m@ == missed_note(param@, min as int, max as int, achieved@, target@, pinned@),
{
    let mut m: String = "the sweep of `".to_owned();
    m.append(param);
    m.append("` over [");
    m.append(signed_decimal_text(min).as_str());
    m.append(", ");
    m.append(signed_decimal_text(max).as_str());
    m.append("] topped out at mean_precision_at_returned=");
    m.append(achieved);
    m.append(", below the target ");
    m.append(target);
    m.append(pinned);
    m.append(". The reported value is the closest point found, not a value that meets the target.");
    m
}

/// The warning of a target that was not met.
pub open spec fn missed_warning(param: Seq<char>, value: int, achieved: Seq<char>, target: Seq<char>, note: Seq<char>) -> Seq<char> {
    "\t⚠ WARNING: calibration did NOT reach its target ("@
        + param
        + "="@
        + text::signed_decimal(value)
        + " → "@
        + achieved
        + " < "@
        + target
        + ") — "@
        + note
}

/// The warning of a target that was not met.
fn new_missed_warning(param: &str, value: i64, achieved: &str, target: &str, note: &str) -> (m: String)
    ensures
        m@ == missed_warning(param@, value as int, achieved@, target@, note@),
{
    let mut m: String = "\t⚠ WARNING: calibration did NOT reach its target (".to_owned();
    m.append(param);
    m.append("=");
    m.append(signed_decimal_text(value).as_str());
    m.append(" → ");
    m.append(achieved);
    m.append(" < ");
    m.append(target);
    m.append(") — ");
    m.append(note);
    m
}

/// Why a target was not met, where it was not: what the ground truth makes impossible comes first.
pub open spec fn calibration_note(
    param: Seq<char>,
    value: i64,
    numbers: CalibrationNumbers,
    unreachable: Option<Seq<char>>,
    min: i64,
    max: i64,
) -> Option<Seq<char>> {
    if numbers.reached_target {
        None
    } else {
        match unreachable {
            Some(n) => Some(n),
            None => Some(
                missed_note(
                    param,
                    min as int,
                    max as int,
                    numbers.achieved_shown@,
                    numbers.target_shown@,
                    if value >= max {
                        pinned_note(param, max as int)
                    } else {
                        ""@
                    },
                ),
            ),
        }
    }
}

/// The outcome of a calibration, which says whether the target was met, and why where it was not.
pub fn finish_calibration(
    param: &str,
    value: i64,
    numbers: &CalibrationNumbers,
    unreachable_note: Option<String>,
    min: i64,
    max: i64,
) -> (r: CalibrationOutcome)
    ensures
        r.param@ == param@,
        r.value == value,
        r.target@ == numbers.target@,
        r.achieved@ == numbers.achieved@,
        r.reached_target == numbers.reached_target,
        r.ceiling@ == numbers.ceiling@,
        match calibration_note(
            param@,
            value,
            *numbers,
            match unreachable_note {
                Some(n) => Some(n@),
                None => None,
            },
            min,
            max,
        ) {
            Some(n) => r.note matches Some(m) && m@ == n,
            None => r.note is None,
        },
{
    let note: Option<String> = if numbers.reached_target {
        None
    } else {
        match unreachable_note {
            Some(n) => Some(n),
            None => {
                let pinned: String = if value >= max {
                    new_pinned_note(param, max)
                } else {
                    "".to_owned()
                };
                Some(
                    new_missed_note(
                        param,
                        min,
                        max,
                        numbers.achieved_shown.as_str(),
                        numbers.target_shown.as_str(),
                        pinned.as_str(),
                    ),
                )
            },
        }
    };
    CalibrationOutcome {
        param: param.to_owned(),
        value,
        target: numbers.target.clone(),
        achieved: numbers.achieved.clone(),
        reached_target: numbers.reached_target,
        ceiling: numbers.ceiling.clone(),
        note,
    }
}

impl CalibrationOutcome {
    /// The outcome as it is written.
    pub open spec fn document(&self) -> JsonView {
        let m = json::put(json::no_members(), "param"@, JsonView::Text(self.param@));
        let m = json::put(m, "value"@, json::int_view(self.value));
        let m = json::put(m, "metric"@, JsonView::Text("mean_precision_at_returned"@));
        let m = json::put(m, "target"@, self.target@);
        let m = json::put(m, "achieved"@, self.achieved@);
        let m = json::put(m, "reached_target"@, JsonView::Bool(self.reached_target));
        let m = json::put(m, "ground_truth_ceiling"@, self.ceiling@);
        JsonView::Object(
            json::put(
                m,
                "note"@,
                match self.note {
                    Some(n) => JsonView::Text(n@),
                    None => JsonView::Null,
                },
            ),
        )
    }

    /// The outcome as it is written.
    pub fn to_json(&self) -> (r: Json)
        ensures
            r@ == self.document(),
    {
        broadcast use json::lemma_object_view;

        let mut members: Vec<(String, Json)> = new_members();
        put_member(&mut members, "param", text_value(self.param.as_str()));
        put_member(&mut members, "value", int_value(self.value));
        put_member(&mut members, "metric", text_value("mean_precision_at_returned"));
        put_member(&mut members, "target", self.target.clone());
        put_member(&mut members, "achieved", self.achieved.clone());
        put_member(&mut members, "reached_target", Json::Bool(self.reached_target));
        put_member(&mut members, "ground_truth_ceiling", self.ceiling.clone());
        let note: Json = match &self.note {
            Some(n) => text_value(n.as_str()),
            None => Json::Null,
        };
        put_member(&mut members, "note", note);
        Json::Object(members)
    }

    /// The warning of a target that was not met, where it was not.
    pub fn warning(&self, numbers: &CalibrationNumbers) -> (r: Option<String>)
        ensures
            match self.note {
                Some(n) => r matches Some(m) && m@ == missed_warning(
                    self.param@,
                    self.value as int,
                    numbers.achieved_shown@,
                    numbers.target_shown@,
                    n@,
                ),
                None => r is None,
            },
    {
        match &self.note {
            Some(n) => Some(
                new_missed_warning(
                    self.param.as_str(),
                    self.value,
                    numbers.achieved_shown.as_str(),
                    numbers.target_shown.as_str(),
                    n.as_str(),
                ),
            ),
            None => None,
        }
    }
}

/// A calibration that did not meet its target always says why.
pub proof fn a_missed_target_is_explained(
    param: Seq<char>,
    value: i64,
    numbers: CalibrationNumbers,
    unreachable: Option<Seq<char>>,
    min: i64,
    max: i64,
)
    ensures
        calibration_note(param, value, numbers, unreachable, min, max) is Some
            <==> !numbers.reached_target,
{
}

/// A sweep looks on the right side: above the target it tries a smaller value next, at or below the target a
/// larger one, and always one that halves what is left.
pub proof fn sweeps_look_on_the_right_side(s: Sweep, target: u64, seen: Observation)
    requires
        s.well_formed(),
        s.lower <= s.upper,
    ensures
        s.after(target, seen).1 matches SweepStep::Try(next) ==> {
            &&& !seen.on_target
            &&& s.after(target, seen).0.current == next
            &&& float_bits::less64(target, seen.precision) ==> s.lower <= next < s.current && -1 <= 2
                * next - (s.lower + s.current) <= 1
            &&& !float_bits::less64(target, seen.precision) ==> s.current < next <= s.upper && -1 <= 2
                * next - (s.current + s.upper) <= 1
        },
        seen.on_target ==> s.after(target, seen).1 == (SweepStep::Finished {
            value: s.current,
            precision: seen.precision,
        }),
{
}

/// Whether what is known of the ends of an interval is so: an end that was tried lies on its side of the
/// target.
pub open spec fn brackets(s: Sweep, target: u64, curve: spec_fn(i64) -> u64) -> bool {
    &&& s.lower_visited ==> !float_bits::less64(target, curve(s.lower))
    &&& s.upper_visited ==> float_bits::less64(target, curve(s.upper))
    &&& s.previous_precision matches Some(p) ==> p == curve(s.previous)
}

/// A sweep closes in on the target: the upper end that was tried is always above it and the lower end never
/// is. What it ends with is on the target, or the next value would be one that was tried, and then the closer
/// one of the last two is reported with the precision that it has.
pub proof fn sweeps_close_in_on_the_target(
    s: Sweep,
    target: u64,
    seen: Observation,
    curve: spec_fn(i64) -> u64,
)
    requires
        s.well_formed(),
        brackets(s, target, curve),
        seen.precision == curve(s.current),
    ensures
        brackets(s.after(target, seen).0, target, curve),
        s.after(target, seen).1 matches SweepStep::Finished { value, precision } ==> precision == curve(
            value,
        ) && (value == s.current || (value == s.previous && seen.previous_is_closer
            && s.previous_precision is Some)),
        s.after(target, seen).1 is Finished && !seen.on_target && seen.previous_is_closer
            && s.previous_precision is Some ==> s.after(target, seen).1->value == s.previous,
{
}

/// A sweep that ends off the target has no value left between: on the side that is left at most one value
/// lies inside the interval.
pub proof fn no_value_is_left_between(s: Sweep, target: u64, seen: Observation)
    requires
        s.well_formed(),
        s.lower <= s.upper,
        !seen.on_target,
        s.after(target, seen).1 is Finished,
    ensures
        float_bits::less64(target, seen.precision) ==> s.current - s.lower <= 1,
        !float_bits::less64(target, seen.precision) ==> s.upper - s.current <= 1,
{
}

/// The smallest value that is tried is the number of results where it is set.
pub proof fn sweeps_begin_at_the_number_of_results(top: i64, first_row: Option<usize>)
    ensures
        least_value(Some(top)) == top,
        least_value(None) == 10,
        0 <= top <= usize::MAX ==> ceiling_top(Some(top), first_row) == Some(top as usize),
        top < 0 ==> ceiling_top(Some(top), first_row) == first_row,
        ceiling_top(None, first_row) == first_row,
{
}

/// An outcome is written with what it says, each under its own name.
pub proof fn outcomes_are_written_under_their_names(o: CalibrationOutcome)
    ensures
        o.document().member("param"@) == Some(JsonView::Text(o.param@)),
        o.document().member("value"@) matches Some(v) && v.as_int() == Some(o.value as int),
        o.document().member("target"@) == Some(o.target@),
        o.document().member("achieved"@) == Some(o.achieved@),
        o.document().member("reached_target"@) == Some(JsonView::Bool(o.reached_target)),
        o.document().member("ground_truth_ceiling"@) == Some(o.ceiling@),
        o.document().member("note"@) == Some(
            match o.note {
                Some(n) => JsonView::Text(n@),
                None => JsonView::Null,
            },
        ),
{
    broadcast use json::put_then_member;

    reveal_strlit("param");
    assert("param"@.len() == 5);
    reveal_strlit("value");
    assert("value"@.len() == 5);
    reveal_strlit("metric");
    assert("metric"@.len() == 6);
    reveal_strlit("target");
    assert("target"@.len() == 6);
    reveal_strlit("achieved");
    assert("achieved"@.len() == 8);
    reveal_strlit("reached_target");
    assert("reached_target"@.len() == 14);
    reveal_strlit("ground_truth_ceiling");
    assert("ground_truth_ceiling"@.len() == 20);
    reveal_strlit("note");
    assert("note"@.len() == 4);
    assert("param"@[0] != "value"@[0]);
    assert("metric"@[0] != "target"@[0]);
}

/// The breadth of a search is the same parameter in either spelling, and every other parameter is its own.
pub proof fn parameters_are_told_by_their_names(knob: Seq<char>)
    ensures
        canonical("EF"@) == "ef"@,
        canonical("ef"@) == "ef"@,
        knob != "EF"@ ==> canonical(knob) == knob,
{
    reveal_strlit("EF");
    reveal_strlit("ef");
    assert("EF"@[0] != "ef"@[0]);
}

} // verus!
