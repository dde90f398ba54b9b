//! Whether a corpus that is reused without an upload is the one that a dataset describes.
use vstd::prelude::*;

use crate::json::{self, count_value, new_members, put_member, text_value, Json, JsonView};
use crate::json_text;
use crate::text::{self, decimal_text};

verus! {

/// How many rows a server holds, and whether it only estimates them.
#[derive(Debug, Clone, Copy, PartialEq, Eq, Structural)]
pub struct CorpusCount {
    pub rows: u64,
    pub approximate: bool,
}

impl CorpusCount {
    /// A count that is exact.
    pub fn exact(rows: u64) -> (r: Self)
        ensures
            r.rows == rows,
            !r.approximate,
    {
        CorpusCount { rows, approximate: false }
    }

    /// A count that a server estimates.
    pub fn estimated(rows: u64) -> (r: Self)
        ensures
            r.rows == rows,
            r.approximate,
    {
        CorpusCount { rows, approximate: true }
    }
}

/// The verdict on a reused corpus.
#[derive(Debug, PartialEq, Eq)]
pub enum ReusePrecondition {
    /// The server holds as many rows as are expected.
    Verified { actual: u64, expected: u64, approximate: bool },
    /// The server gave no count, so there is nothing to compare, whatever is known of the dataset.
    NoServerCount(String),
    /// The server gave a count, but it is not known how many rows there should be.
    CorpusSizeUnknown(String),
    /// The server holds more rows than are expected.
    Surplus { actual: u64, expected: u64, approximate: bool },
    /// The server holds fewer rows than are expected; none, where the corpus is missing.
    Short { actual: u64, expected: u64, approximate: bool },
}

impl ReusePrecondition {
    /// The tag of a verdict in a result file.
    pub open spec fn tag(&self) -> Seq<char> {
        match *self {
            ReusePrecondition::Verified { .. } => "verified"@,
            ReusePrecondition::NoServerCount(_) => "unverified"@,
            ReusePrecondition::CorpusSizeUnknown(_) => "corpus_size_unknown"@,
            ReusePrecondition::Surplus { .. } => "surplus"@,
            ReusePrecondition::Short { .. } => "short"@,
        }
    }

    /// Why the expected number of rows is not known, where it is not.
    pub open spec fn detail(&self) -> Option<Seq<char>> {
        match *self {
            ReusePrecondition::CorpusSizeUnknown(why) => Some(why@),
            _ => None,
        }
    }

    /// The tag of a verdict in a result file.
    pub fn status(&self) -> (r: &'static str)
        ensures
            r@ == self.tag(),
    {
        match self {
            ReusePrecondition::Verified { .. } => "verified",
            ReusePrecondition::NoServerCount(_) => "unverified",
            ReusePrecondition::CorpusSizeUnknown(_) => "corpus_size_unknown",
            ReusePrecondition::Surplus { .. } => "surplus",
            ReusePrecondition::Short { .. } => "short",
        }
    }
}

/// What is said where the server gave no count.
pub open spec fn no_count_note(engine: Seq<char>) -> Seq<char> {
    "this tool read no server-side row count for config '"@
        + engine
        + "' (either none is implemented for its engine yet, or the engine replied without one)"@
}

/// What is said where the server gave no count.
fn new_no_count_note(engine: &str) -> (m: String)
    ensures
        m@ == no_count_note(engine@),
{
    let mut m: String = "this tool read no server-side row count for config '".to_owned();
    m.append(engine);
    m.append("' (either none is implemented for its engine yet, or the engine replied without one)");
    m
}

/// Whether `v` is the verdict on a server that holds `actual` rows of the `expected`.
pub open spec fn is_verdict(
    v: ReusePrecondition,
    expected: Result<u64, String>,
    actual: Option<CorpusCount>,
    engine: Seq<char>,
) -> bool {
    match actual {
        None => v matches ReusePrecondition::NoServerCount(why) && why@ == no_count_note(engine),
        Some(count) => match expected {
            Err(e) => v matches ReusePrecondition::CorpusSizeUnknown(why) && why@ == e@,
            Ok(n) => {
                let (rows, approximate) = (count.rows, count.approximate);
                if rows < n {
                    v == (ReusePrecondition::Short { actual: rows, expected: n, approximate })
                } else if rows > n {
                    v == (ReusePrecondition::Surplus { actual: rows, expected: n, approximate })
                } else {
                    v == (ReusePrecondition::Verified { actual: rows, expected: n, approximate })
                }
            },
        },
    }
}

/// Compares what a server holds with what is expected. The server's side is looked at first: without a
/// count there is nothing to compare.
pub fn classify_reuse_precondition(
    expected: Result<u64, String>,
    actual: Option<CorpusCount>,
    engine_name: &str,
) -> (v: ReusePrecondition)
    ensures
        is_verdict(v, expected, actual, engine_name@),
{
    match actual {
        None => ReusePrecondition::NoServerCount(new_no_count_note(engine_name)),
        Some(count) => match expected {
            Err(why) => ReusePrecondition::CorpusSizeUnknown(why),
            Ok(n) => if count.rows < n {
                ReusePrecondition::Short {
                    actual: count.rows,
                    expected: n,
                    approximate: count.approximate,
                }
            } else if count.rows > n {
                ReusePrecondition::Surplus {
                    actual: count.rows,
                    expected: n,
                    approximate: count.approximate,
                }
            } else {
                ReusePrecondition::Verified {
                    actual: count.rows,
                    expected: n,
                    approximate: count.approximate,
                }
            },
        },
    }
}

/// What is known of a dataset: what its files say and what is declared of it.
pub struct DatasetFacts {
    pub name: String,
    pub dataset_type: Option<String>,
    /// The declared path: a text, or a JSON value that lists paths.
    pub path: Json,
    /// How many rows the files on disk hold, where that can be measured.
    pub measured: Result<Option<u64>, String>,
    /// The declared number of rows.
    pub vector_count: Option<i64>,
    /// Whether the layout has no count that is cheap to measure.
    pub may_fall_back_to_declared_count: bool,
    pub corpus_path_exists: bool,
    pub has_link: bool,
}

/// The declared number of rows, where it is positive.
pub open spec fn declared_rows(facts: DatasetFacts) -> Option<u64> {
    match facts.vector_count {
        Some(n) => if n > 0 {
            Some(n as u64)
        } else {
            None
        },
        None => None,
    }
}

/// The layout of a dataset as it is shown.
pub open spec fn shown_type(facts: DatasetFacts) -> Seq<char> {
    match facts.dataset_type {
        Some(t) => t@,
        None => "<none>"@,
    }
}

/// The path of a dataset as it is shown: without quotes where it is a text.
pub open spec fn shown_path(facts: DatasetFacts) -> Seq<char> {
    match facts.path@ {
        JsonView::Text(t) => t,
        other => json_text::compact_text(other),
    }
}

/// What is said where the declared number of rows is not the measured one.
pub open spec fn declaration_warning(name: Seq<char>, declared: nat, measured: nat) -> Seq<char> {
    "WARNING: dataset '"@
        + name
        + "' declares vector_count "@
        + text::decimal(declared)
        + " but its corpus on disk holds "@
        + text::decimal(measured)
        + ". The --skip-upload reuse check uses the MEASURED "@
        + text::decimal(measured)
        + "; fix vector_count in datasets/datasets.json."@
}

/// What is said where the declared number of rows is not the measured one.
fn new_declaration_warning(name: &str, declared: u64, measured: u64) -> (m: String)
    ensures
        m@ == declaration_warning(name@, declared as nat, measured as nat),
{
    let mut m: String = "WARNING: dataset '".to_owned();
    m.append(name);
    m.append("' declares vector_count ");
    m.append(decimal_text(declared).as_str());
    m.append(" but its corpus on disk holds ");
    m.append(decimal_text(measured).as_str());
    m.append(". The --skip-upload reuse check uses the MEASURED ");
    m.append(decimal_text(measured).as_str());
    m.append("; fix vector_count in datasets/datasets.json.");
    m
}

/// What is said where the files could not be measured.
pub open spec fn measuring_error(why: Seq<char>) -> Seq<char> {
    "measuring the corpus on disk failed: "@
        + why
}

/// What is said where the files could not be measured.
fn new_measuring_error(why: &str) -> (m: String)
    ensures
        m@ == measuring_error(why@),
{
    let mut m: String = "measuring the corpus on disk failed: ".to_owned();
    m.append(why);
    m
}

/// What is said of a layout without a count for which none is declared.
pub open spec fn undeclared_error(name: Seq<char>, layout: Seq<char>) -> Seq<char> {
    "dataset '"@
        + name
        + "' uses the '"@
        + layout
        + "' layout, which carries no cheap row count to measure, and datasets.json declares no vector_count for it — so there is no number to check the server against. Add \"vector_count\" to this dataset's entry in datasets/datasets.json."@
}

/// What is said of a layout without a count for which none is declared.
fn new_undeclared_error(name: &str, layout: &str) -> (m: String)
    ensures
        m@ == undeclared_error(name@, layout@),
{
    let mut m: String = "dataset '".to_owned();
    m.append(name);
    m.append("' uses the '");
    m.append(layout);
    m.append("' layout, which carries no cheap row count to measure, and datasets.json declares no vector_count for it — so there is no number to check the server against. Add \"vector_count\" to this dataset's entry in datasets/datasets.json.");
    m
}

/// What helps where the corpus can be fetched again.
pub open spec fn linked_remedy(path: Seq<char>) -> Seq<char> {
    "restore the corpus file — or delete '"@
        + path
        + "' to make the next run fetch it fresh from the dataset's link"@
}

/// What helps where the corpus can be fetched again.
fn new_linked_remedy(path: &str) -> (m: String)
    ensures
        m@ == linked_remedy(path@),
{
    let mut m: String = "restore the corpus file — or delete '".to_owned();
    m.append(path);
    m.append("' to make the next run fetch it fresh from the dataset's link");
    m
}

/// What helps where the corpus cannot be fetched: deleting would only lose what is beside it.
pub open spec fn unlinked_remedy() -> Seq<char> {
    "restore the corpus file. This dataset has no download link, so deleting the directory would NOT re-fetch it — and would destroy the query and payload files sitting beside the missing corpus"@
}

/// What is said of a dataset that is there without its corpus.
pub open spec fn gutted_error(name: Seq<char>, path: Seq<char>, layout: Seq<char>, remedy: Seq<char>) -> Seq<char> {
    "dataset '"@
        + name
        + "' is present at '"@
        + path
        + "' but its corpus file is not in it (dataset_type '"@
        + layout
        + "'), so there is no number to check the server against. A dataset whose path already exists is never re-downloaded, so "@
        + remedy
}

/// What is said of a dataset that is there without its corpus.
fn new_gutted_error(name: &str, path: &str, layout: &str, remedy: &str) -> (m: String)
    ensures
        m@ == gutted_error(name@, path@, layout@, remedy@),
{
    let mut m: String = "dataset '".to_owned();
    m.append(name);
    m.append("' is present at '");
    m.append(path);
    m.append("' but its corpus file is not in it (dataset_type '");
    m.append(layout);
    m.append("'), so there is no number to check the server against. A dataset whose path already exists is never re-downloaded, so ");
    m.append(remedy);
    m
}

/// What is said of a dataset that is not there.
pub open spec fn absent_error(name: Seq<char>, path: Seq<char>, layout: Seq<char>) -> Seq<char> {
    "dataset '"@
        + name
        + "' has no corpus at '"@
        + path
        + "' on this machine (dataset_type '"@
        + layout
        + "') and resolving it produced none, so there is no number to check the server against"@
}

/// What is said of a dataset that is not there.
fn new_absent_error(name: &str, path: &str, layout: &str) -> (m: String)
    ensures
        m@ == absent_error(name@, path@, layout@),
{
    let mut m: String = "dataset '".to_owned();
    m.append(name);
    m.append("' has no corpus at '");
    m.append(path);
    m.append("' on this machine (dataset_type '");
    m.append(layout);
    m.append("') and resolving it produced none, so there is no number to check the server against");
    m
}

/// How many rows a reused corpus should hold, or why that is not known. What is measured comes first;
/// the declaration stands only for a layout that cannot be measured.
pub open spec fn expected_rows(facts: DatasetFacts) -> Result<u64, Seq<char>> {
    match facts.measured {
        Err(e) => Err(measuring_error(e@)),
        Ok(Some(n)) => Ok(n),
        Ok(None) => if facts.may_fall_back_to_declared_count {
            match declared_rows(facts) {
                Some(n) => Ok(n),
                None => Err(undeclared_error(facts.name@, shown_type(facts))),
            }
        } else if facts.corpus_path_exists {
            Err(
                gutted_error(
                    facts.name@,
                    shown_path(facts),
                    shown_type(facts),
                    if facts.has_link {
                        linked_remedy(shown_path(facts))
                    } else {
                        unlinked_remedy()
                    },
                ),
            )
        } else {
            Err(absent_error(facts.name@, shown_path(facts), shown_type(facts)))
        },
    }
}

/// What is warned of beside that number: a declaration that disagrees with what was measured.
pub open spec fn expected_rows_warning(facts: DatasetFacts) -> Option<Seq<char>> {
    match (facts.measured, declared_rows(facts)) {
        (Ok(Some(n)), Some(d)) => if d != n {
            Some(declaration_warning(facts.name@, d as nat, n as nat))
        } else {
            None
        },
        _ => None,
    }
}

/// How many rows a reused corpus should hold, or why that is not known; and what is warned of.
pub fn reuse_expected_rows(facts: &DatasetFacts) -> (r: (Result<u64, String>, Option<String>))
    ensures
        match expected_rows(*facts) {
            Ok(n) => r.0 == Ok::<u64, String>(n),
            Err(e) => r.0 matches Err(m) && m@ == e,
        },
        match expected_rows_warning(*facts) {
            Some(w) => r.1 matches Some(m) && m@ == w,
            None => r.1 is None,
        },
{
    let declared: Option<u64> = match facts.vector_count {
        Some(n) => if n > 0 {
            Some(n as u64)
        } else {
            None
        },
        None => None,
    };
    match &facts.measured {
        Err(e) => return (Err(new_measuring_error(e.as_str())), None),
        Ok(Some(n)) => {
            let warning: Option<String> = match declared {
                Some(d) => if d != *n {
                    Some(new_declaration_warning(facts.name.as_str(), d, *n))
                } else {
                    None
                },
                None => None,
            };
            return (Ok(*n), warning);
        },
        Ok(None) => {},
    }
    let name: &str = facts.name.as_str();
    let layout: &str = match &facts.dataset_type {
        Some(t) => t.as_str(),
        None => "<none>",
    };
    let path: String = match facts.path.as_str() {
        Some(p) => p.to_owned(),
        None => json_text::compact(&facts.path),
    };
    if facts.may_fall_back_to_declared_count {
        return match declared {
            Some(n) => (Ok(n), None),
            None => (Err(new_undeclared_error(name, layout)), None),
        };
    }
    if facts.corpus_path_exists {
        let remedy: String = if facts.has_link {
            new_linked_remedy(path.as_str())
        } else {
            "restore the corpus file. This dataset has no download link, so deleting the directory would NOT re-fetch it — and would destroy the query and payload files sitting beside the missing corpus".to_owned()
        };
        return (Err(new_gutted_error(name, path.as_str(), layout, remedy.as_str())), None);
    }
    (Err(new_absent_error(name, path.as_str(), layout)), None)
}

/// Whether a schema has a field.
pub open spec fn has_fields(schema: Option<JsonView>) -> bool {
    match schema {
        Some(JsonView::Object(members)) => members.len() > 0,
        _ => false,
    }
}

/// Whether the schema of a dataset has a field to filter by.
pub fn has_schema_fields(schema: Option<&Json>) -> (r: bool)
    ensures
        r == has_fields(
            match schema {
                Some(s) => Some(s@),
                None => None,
            },
        ),
{
    broadcast use json::lemma_object_view;

    match schema {
        Some(s) => match s.as_object() {
            Some(members) => members.len() > 0,
            None => false,
        },
        None => false,
    }
}

/// What is to be done next to check a reused corpus.
#[derive(Debug)]
pub enum ReuseStep {
    /// The run measures nothing, so nothing is checked.
    NotChecked,
    /// The server is to be asked for its count.
    Probe,
    /// The server gave a count: the dataset is to be fetched where it is not there, and its rows
    /// compared.
    Fetch(CorpusCount),
    /// The server gave none: the rows of the dataset are looked up without fetching it.
    Compare,
    /// The check is over, with this outcome.
    Concluded(ReuseOutcome),
}

/// What is said to the user.
#[derive(Debug)]
pub enum Said {
    Note(String),
    Warning(String),
    Nothing,
}

/// The outcome of a check: what is said, and the record for the result files or why the run is refused.
#[derive(Debug)]
pub struct ReuseOutcome {
    pub said: Said,
    pub verdict: Result<Json, String>,
    /// Whether the refusal is listed among the rejected experiments.
    pub rejected: bool,
}

/// The first step of a check: none where nothing will be measured, that is, without a search, or where
/// only filters are searched for and there is no field to filter by.
pub fn first_reuse_step(skip_search: bool, skip_vector_index: bool, schema: Option<&Json>) -> (r:
    ReuseStep)
    ensures
        ({
            let fields = has_fields(
                match schema {
                    Some(s) => Some(s@),
                    None => None,
                },
            );
            if skip_search || (skip_vector_index && !fields) {
                r is NotChecked
            } else {
                r is Probe
            }
        }),
{
    if skip_search {
        return ReuseStep::NotChecked;
    }
    if skip_vector_index && !has_schema_fields(schema) {
        return ReuseStep::NotChecked;
    }
    ReuseStep::Probe
}

/// What is said where the server could not be asked.
pub open spec fn probe_error(engine: Seq<char>, why: Seq<char>) -> Seq<char> {
    "--skip-upload: could not read the server-side corpus size for config '"@
        + engine
        + "' ("@
        + why
        + "). This is a PROBE failure, not a verdict on the corpus — the data may well be intact. The flag promises to reuse an already-loaded corpus and that promise is now unverified. Fix the connection or the privilege, or pass --allow-partial-corpus to run anyway."@
}

/// What is said where the server could not be asked.
fn new_probe_error(engine: &str, why: &str) -> (m: String)
    ensures
        m@ == probe_error(engine@, why@),
{
    let mut m: String = "--skip-upload: could not read the server-side corpus size for config '".to_owned();
    m.append(engine);
    m.append("' (");
    m.append(why);
    m.append("). This is a PROBE failure, not a verdict on the corpus — the data may well be intact. The flag promises to reuse an already-loaded corpus and that promise is now unverified. Fix the connection or the privilege, or pass --allow-partial-corpus to run anyway.");
    m
}

/// The record of a failed probe that was waived.
pub open spec fn probe_record(why: Seq<char>) -> JsonView {
    let a = json::put(json::no_members(), "status"@, JsonView::Text("probe_failed"@));
    let b = json::put(a, "detail"@, JsonView::Text(why));
    JsonView::Object(json::put(b, "waived_by_allow_partial_corpus"@, JsonView::Bool(true)))
}

/// A warning of `m`.
pub open spec fn warns(said: Said, m: Seq<char>) -> bool {
    said matches Said::Warning(w) && w@ == "WARNING: "@ + m
}

/// The step after the server was asked. A failed probe refuses the run unless that is waived; the
/// dataset is fetched only where there is a count to compare it with.
pub fn reuse_step_after_probe(
    probe: &Result<Option<CorpusCount>, String>,
    engine_name: &str,
    allow_partial_corpus: bool,
) -> (r: ReuseStep)
    ensures
        match *probe {
            Ok(Some(count)) => r == ReuseStep::Fetch(count),
            Ok(None) => r is Compare,
            Err(e) => {
                let m = probe_error(engine_name@, e@);
                &&& r matches ReuseStep::Concluded(o)
                &&& !o.rejected
                &&& allow_partial_corpus ==> warns(o.said, m) && (o.verdict matches Ok(j) && j@
                    == probe_record(e@))
                &&& !allow_partial_corpus ==> o.said is Nothing && (o.verdict matches Err(x) && x@
                    == m)
            },
        },
{
    broadcast use json::lemma_object_view;

    match probe {
        Ok(Some(count)) => ReuseStep::Fetch(*count),
        Ok(None) => ReuseStep::Compare,
        Err(e) => {
            let m: String = new_probe_error(engine_name, e.as_str());
            if allow_partial_corpus {
                let mut members: Vec<(String, Json)> = new_members();
                put_member(&mut members, "status", text_value("probe_failed"));
                put_member(&mut members, "detail", text_value(e.as_str()));
                put_member(&mut members, "waived_by_allow_partial_corpus", Json::Bool(true));
                ReuseStep::Concluded(
                    ReuseOutcome {
                        said: new_warning(m.as_str()),
                        verdict: Ok(Json::Object(members)),
                        rejected: false,
                    },
                )
            } else {
                ReuseStep::Concluded(
                    ReuseOutcome { said: Said::Nothing, verdict: Err(m), rejected: false },
                )
            }
        },
    }
}

/// A warning of `m`.
fn new_warning(m: &str) -> (r: Said)
    ensures
        warns(r, m@),
{
    let mut w: String = "WARNING: ".to_owned();
    w.append(m);
    Said::Warning(w)
}

/// The mark of an estimate.
pub open spec fn estimate_mark(approximate: bool) -> Seq<char> {
    if approximate {
        "≈"@
    } else {
        ""@
    }
}

/// The mark of an estimate.
fn new_estimate_mark(approximate: bool) -> (r: &'static str)
    ensures
        r@ == estimate_mark(approximate),
{
    if approximate {
        "≈"
    } else {
        ""
    }
}

/// A number or nothing, as JSON.
pub open spec fn optional_count(n: Option<u64>) -> JsonView {
    match n {
        Some(n) => json::count_view(n),
        None => JsonView::Null,
    }
}

/// A number or nothing, as JSON.
fn new_optional_count(n: Option<u64>) -> (r: Json)
    ensures
        r@ == optional_count(n),
{
    match n {
        Some(n) => count_value(n),
        None => Json::Null,
    }
}

/// The record of a check in the result files: both numbers, the verdict, whether it was waived, and
/// why the expected number is not known where it is not.
pub open spec fn reuse_record(
    tag: Seq<char>,
    detail: Option<Seq<char>>,
    expected: Option<u64>,
    actual: Option<CorpusCount>,
    waived: bool,
) -> JsonView {
    let a = json::put(json::no_members(), "status"@, JsonView::Text(tag));
    let b = json::put(a, "expected_rows"@, optional_count(expected));
    let c = json::put(
        b,
        "actual_rows"@,
        optional_count(
            match actual {
                Some(n) => Some(n.rows),
                None => None,
            },
        ),
    );
    let d = json::put(
        c,
        "actual_is_estimate"@,
        JsonView::Bool(
            match actual {
                Some(n) => n.approximate,
                None => false,
            },
        ),
    );
    let e = json::put(d, "waived_by_allow_partial_corpus"@, JsonView::Bool(waived));
    JsonView::Object(
        match detail {
            Some(why) => json::put(e, "detail"@, JsonView::Text(why)),
            None => e,
        },
    )
}

/// The record of a check in the result files.
fn new_reuse_record(
    verdict: &ReusePrecondition,
    expected: Option<u64>,
    actual: Option<CorpusCount>,
    waived: bool,
) -> (r: Json)
    ensures
        r@ == reuse_record(verdict.tag(), verdict.detail(), expected, actual, waived),
{
    broadcast use json::lemma_object_view;

    let (rows, approximate): (Option<u64>, bool) = match actual {
        Some(n) => (Some(n.rows), n.approximate),
        None => (None, false),
    };
    let mut members: Vec<(String, Json)> = new_members();
    put_member(&mut members, "status", text_value(verdict.status()));
    put_member(&mut members, "expected_rows", new_optional_count(expected));
    put_member(&mut members, "actual_rows", new_optional_count(rows));
    put_member(&mut members, "actual_is_estimate", Json::Bool(approximate));
    put_member(&mut members, "waived_by_allow_partial_corpus", Json::Bool(waived));
    if let ReusePrecondition::CorpusSizeUnknown(why) = verdict {
        put_member(&mut members, "detail", text_value(why.as_str()));
    }
    Json::Object(members)
}

/// What is said of a corpus that is whole.
pub open spec fn verified_note(mark: Seq<char>, actual: nat, expected: nat) -> Seq<char> {
    "Experiment stage: Reuse check — server holds "@
        + mark
        + text::decimal(actual)
        + " of "@
        + text::decimal(expected)
        + " expected rows"@
}

/// What is said of a corpus that is whole.
fn new_verified_note(mark: &str, actual: u64, expected: u64) -> (m: String)
    ensures
        m@ == verified_note(mark@, actual as nat, expected as nat),
{
    let mut m: String = "Experiment stage: Reuse check — server holds ".to_owned();
    m.append(mark);
    m.append(decimal_text(actual).as_str());
    m.append(" of ");
    m.append(decimal_text(expected).as_str());
    m.append(" expected rows");
    m
}

/// What is said of a corpus that could not be checked.
pub open spec fn skipped_note(why: Seq<char>) -> Seq<char> {
    "Experiment stage: Reuse check — SKIPPED ("@
        + why
        + "); --skip-upload is running against an unverified corpus"@
}

/// What is said of a corpus that could not be checked.
fn new_skipped_note(why: &str) -> (m: String)
    ensures
        m@ == skipped_note(why@),
{
    let mut m: String = "Experiment stage: Reuse check — SKIPPED (".to_owned();
    m.append(why);
    m.append("); --skip-upload is running against an unverified corpus");
    m
}

/// What is said where the expected number of rows is not known.
pub open spec fn unknown_error(engine: Seq<char>, dataset: Seq<char>, why: Seq<char>, mark: Seq<char>, rows: nat) -> Seq<char> {
    "--skip-upload: the reuse check for config '"@
        + engine
        + "' has nothing to compare against — the expected row count for dataset '"@
        + dataset
        + "' could not be determined ("@
        + why
        + "). The server holds "@
        + mark
        + text::decimal(rows)
        + " rows, and this run cannot tell whether that is the whole corpus. Unverified is not the same as intact: recall/precision are scored against ground truth for the FULL corpus, so if the corpus behind this config is empty or partial, continuing publishes a wrong number (an empty corpus scores recall 0.0 with zero failed queries) under a config name that claims otherwise. The remedy is whatever the reason above asks for — give this machine the dataset's corpus, or declare its vector_count in datasets/datasets.json. On a sweep, add --exit-on-error false so the configs that DO verify still publish their (correct) numbers while this one is skipped. --allow-partial-corpus measures whatever the server holds without checking; the waiver is recorded in the result file."@
}

/// What is said where the expected number of rows is not known.
fn new_unknown_error(engine: &str, dataset: &str, why: &str, mark: &str, rows: u64) -> (m: String)
    ensures
        m@ == unknown_error(engine@, dataset@, why@, mark@, rows as nat),
{
    let mut m: String = "--skip-upload: the reuse check for config '".to_owned();
    m.append(engine);
    m.append("' has nothing to compare against — the expected row count for dataset '");
    m.append(dataset);
    m.append("' could not be determined (");
    m.append(why);
    m.append("). The server holds ");
    m.append(mark);
    m.append(decimal_text(rows).as_str());
    m.append(" rows, and this run cannot tell whether that is the whole corpus. Unverified is not the same as intact: recall/precision are scored against ground truth for the FULL corpus, so if the corpus behind this config is empty or partial, continuing publishes a wrong number (an empty corpus scores recall 0.0 with zero failed queries) under a config name that claims otherwise. The remedy is whatever the reason above asks for — give this machine the dataset's corpus, or declare its vector_count in datasets/datasets.json. On a sweep, add --exit-on-error false so the configs that DO verify still publish their (correct) numbers while this one is skipped. --allow-partial-corpus measures whatever the server holds without checking; the waiver is recorded in the result file.");
    m
}

/// What is said of a corpus with too many rows.
pub open spec fn surplus_note(engine: Seq<char>, mark: Seq<char>, actual: nat, dataset: Seq<char>, expected: nat) -> Seq<char> {
    "--skip-upload: config '"@
        + engine
        + "' holds "@
        + mark
        + text::decimal(actual)
        + " rows but dataset '"@
        + dataset
        + "' declares "@
        + text::decimal(expected)
        + " — the extra rows are searchable and can displace true neighbours, so recall may be understated."@
}

/// What is said of a corpus with too many rows.
fn new_surplus_note(engine: &str, mark: &str, actual: u64, dataset: &str, expected: u64) -> (m: String)
    ensures
        m@ == surplus_note(engine@, mark@, actual as nat, dataset@, expected as nat),
{
    let mut m: String = "--skip-upload: config '".to_owned();
    m.append(engine);
    m.append("' holds ");
    m.append(mark);
    m.append(decimal_text(actual).as_str());
    m.append(" rows but dataset '");
    m.append(dataset);
    m.append("' declares ");
    m.append(decimal_text(expected).as_str());
    m.append(" — the extra rows are searchable and can displace true neighbours, so recall may be understated.");
    m
}

/// What is said of a corpus with too few rows.
pub open spec fn short_error(what: Seq<char>, engine: Seq<char>, mark: Seq<char>, actual: nat, expected: nat, dataset: Seq<char>) -> Seq<char> {
    "--skip-upload: the corpus you asked to reuse "@
        + what
        + " — config '"@
        + engine
        + "' holds "@
        + mark
        + text::decimal(actual)
        + " of the "@
        + text::decimal(expected)
        + " rows dataset '"@
        + dataset
        + "' declares. Recall/precision are scored against ground truth for the FULL corpus, so continuing would publish a wrong number under a config name that claims otherwise. Re-upload this config (drop --skip-upload, add --keep-data). On a sweep, add --exit-on-error false so the configs whose corpus IS intact still publish their (correct) numbers while this one is skipped. --allow-partial-corpus measures the partial corpus deliberately — it publishes exactly the number this check exists to suppress, so reach for it last."@
}

/// What is said of a corpus with too few rows.
fn new_short_error(what: &str, engine: &str, mark: &str, actual: u64, expected: u64, dataset: &str) -> (m: String)
    ensures
        m@ == short_error(what@, engine@, mark@, actual as nat, expected as nat, dataset@),
{
    let mut m: String = "--skip-upload: the corpus you asked to reuse ".to_owned();
    m.append(what);
    m.append(" — config '");
    m.append(engine);
    m.append("' holds ");
    m.append(mark);
    m.append(decimal_text(actual).as_str());
    m.append(" of the ");
    m.append(decimal_text(expected).as_str());
    m.append(" rows dataset '");
    m.append(dataset);
    m.append("' declares. Recall/precision are scored against ground truth for the FULL corpus, so continuing would publish a wrong number under a config name that claims otherwise. Re-upload this config (drop --skip-upload, add --keep-data). On a sweep, add --exit-on-error false so the configs whose corpus IS intact still publish their (correct) numbers while this one is skipped. --allow-partial-corpus measures the partial corpus deliberately — it publishes exactly the number this check exists to suppress, so reach for it last.");
    m
}

/// A warning that rests on an estimate.
pub open spec fn estimate_note(warning: Seq<char>) -> Seq<char> {
    warning
        + "\n\t(the count above is an ESTIMATE, so this is a warning, not a rejection — verify it before quoting the run)"@
}

/// A warning that rests on an estimate.
fn new_estimate_note(warning: &str) -> (m: String)
    ensures
        m@ == estimate_note(warning@),
{
    let mut m: String = warning.to_owned();
    m.append("\n\t(the count above is an ESTIMATE, so this is a warning, not a rejection — verify it before quoting the run)");
    m
}

/// A reason, with why the dataset could not be fetched.
pub open spec fn resolve_error_note(why: Seq<char>, e: Seq<char>) -> Seq<char> {
    why
        + "; resolving the dataset failed with: "@
        + e
}

/// A reason, with why the dataset could not be fetched.
fn new_resolve_error_note(why: &str, e: &str) -> (m: String)
    ensures
        m@ == resolve_error_note(why@, e@),
{
    let mut m: String = why.to_owned();
    m.append("; resolving the dataset failed with: ");
    m.append(e);
    m
}

/// What is expected, with the failure to fetch the dataset added to the reason where it is not known.
pub open spec fn with_resolve_error(expected: Result<u64, Seq<char>>, resolve: Option<Seq<char>>) -> Result<
    u64,
    Seq<char>,
> {
    match (expected, resolve) {
        (Err(why), Some(e)) => Err(resolve_error_note(why, e)),
        (other, _) => other,
    }
}

/// How a short corpus is called.
pub open spec fn shortness(actual: u64) -> Seq<char> {
    if actual == 0 {
        "is empty or missing"@
    } else {
        "is incomplete"@
    }
}

/// Whether `o` is the right outcome for a server that holds `actual` rows where `expected` are wanted.
pub open spec fn concludes(
    o: ReuseOutcome,
    expected: Result<u64, Seq<char>>,
    actual: Option<CorpusCount>,
    engine: Seq<char>,
    dataset: Seq<char>,
    allow_partial_corpus: bool,
) -> bool {
    let known = match expected {
        Ok(n) => Some(n),
        Err(_) => None,
    };
    match actual {
        None => {
            &&& o.said matches Said::Note(m)
            &&& m@ == skipped_note(no_count_note(engine))
            &&& !o.rejected
            &&& o.verdict matches Ok(j)
            &&& j@ == reuse_record("unverified"@, None, known, None, false)
        },
        Some(count) => {
            let mark = estimate_mark(count.approximate);
            match expected {
                Err(why) => {
                    let m = unknown_error(engine, dataset, why, mark, count.rows as nat);
                    &&& allow_partial_corpus ==> {
                        &&& warns(o.said, m)
                        &&& !o.rejected
                        &&& o.verdict matches Ok(j)
                        &&& j@ == reuse_record(
                            "corpus_size_unknown"@,
                            Some(why),
                            None,
                            Some(count),
                            true,
                        )
                    }
                    &&& !allow_partial_corpus ==> o.said is Nothing && o.rejected && (
                    o.verdict matches Err(x) && x@ == m)
                },
                Ok(n) => if count.rows == n {
                    &&& o.said matches Said::Note(m)
                    &&& m@ == verified_note(mark, n as nat, n as nat)
                    &&& !o.rejected
                    &&& o.verdict matches Ok(j)
                    &&& j@ == reuse_record("verified"@, None, Some(n), Some(count), false)
                } else if count.rows > n {
                    &&& warns(
                        o.said,
                        surplus_note(engine, mark, count.rows as nat, dataset, n as nat),
                    )
                    &&& !o.rejected
                    &&& o.verdict matches Ok(j)
                    &&& j@ == reuse_record("surplus"@, None, Some(n), Some(count), false)
                } else {
                    let m = short_error(
                        shortness(count.rows),
                        engine,
                        mark,
                        count.rows as nat,
                        n as nat,
                        dataset,
                    );
                    if count.approximate {
                        &&& warns(o.said, estimate_note(m))
                        &&& !o.rejected
                        &&& o.verdict matches Ok(j)
                        &&& j@ == reuse_record("short"@, None, Some(n), Some(count), false)
                    } else if allow_partial_corpus {
                        &&& warns(o.said, m)
                        &&& !o.rejected
                        &&& o.verdict matches Ok(j)
                        &&& j@ == reuse_record("short"@, None, Some(n), Some(count), true)
                    } else {
                        o.said is Nothing && o.rejected && (o.verdict matches Err(x) && x@ == m)
                    }
                },
            }
        },
    }
}

/// The outcome of a check, once the server's count is known, the dataset was fetched where that was
/// asked for, and its rows were looked up. A short corpus and an unknown size refuse the run unless
/// that is waived; an estimate never does.
pub fn check_corpus_reuse_precondition(
    expected: Result<u64, String>,
    resolve_error: Option<String>,
    actual: Option<CorpusCount>,
    engine_name: &str,
    dataset_name: &str,
    allow_partial_corpus: bool,
) -> (o: ReuseOutcome)
    ensures
        concludes(
            o,
            with_resolve_error(
                match expected {
                    Ok(n) => Ok(n),
                    Err(e) => Err(e@),
                },
                match resolve_error {
                    Some(e) => Some(e@),
                    None => None,
                },
            ),
            actual,
            engine_name@,
            dataset_name@,
            allow_partial_corpus,
        ),
{
    let expected: Result<u64, String> = match expected {
        Ok(n) => Ok(n),
        Err(why) => match &resolve_error {
            Some(e) => Err(new_resolve_error_note(why.as_str(), e.as_str())),
            None => Err(why),
        },
    };
    let known: Option<u64> = match &expected {
        Ok(n) => Some(*n),
        Err(_) => None,
    };
    let verdict: ReusePrecondition = classify_reuse_precondition(expected, actual, engine_name);
    match &verdict {
        ReusePrecondition::Verified { actual: held, expected: wanted, approximate } => ReuseOutcome {
            said: Said::Note(
                new_verified_note(new_estimate_mark(*approximate), *held, *wanted),
            ),
            verdict: Ok(new_reuse_record(&verdict, known, actual, false)),
            rejected: false,
        },
        ReusePrecondition::NoServerCount(why) => ReuseOutcome {
            said: Said::Note(new_skipped_note(why.as_str())),
            verdict: Ok(new_reuse_record(&verdict, known, actual, false)),
            rejected: false,
        },
        ReusePrecondition::CorpusSizeUnknown(why) => {
            let (rows, approximate): (u64, bool) = match actual {
                Some(c) => (c.rows, c.approximate),
                None => (0, false),
            };
            let m: String = new_unknown_error(
                engine_name,
                dataset_name,
                why.as_str(),
                new_estimate_mark(approximate),
                rows,
            );
            if allow_partial_corpus {
                ReuseOutcome {
                    said: new_warning(m.as_str()),
                    verdict: Ok(new_reuse_record(&verdict, known, actual, true)),
                    rejected: false,
                }
            } else {
                ReuseOutcome { said: Said::Nothing, verdict: Err(m), rejected: true }
            }
        },
        ReusePrecondition::Surplus { actual: held, expected: wanted, approximate } => ReuseOutcome {
            said: new_warning(
                new_surplus_note(
                    engine_name,
                    new_estimate_mark(*approximate),
                    *held,
                    dataset_name,
                    *wanted,
                ).as_str(),
            ),
            verdict: Ok(new_reuse_record(&verdict, known, actual, false)),
            rejected: false,
        },
        ReusePrecondition::Short { actual: held, expected: wanted, approximate } => {
            let what: &str = if *held == 0 {
                "is empty or missing"
            } else {
                "is incomplete"
            };
            let m: String = new_short_error(
                what,
                engine_name,
                new_estimate_mark(*approximate),
                *held,
                *wanted,
                dataset_name,
            );
            if *approximate {
                ReuseOutcome {
                    said: new_warning(new_estimate_note(m.as_str()).as_str()),
                    verdict: Ok(new_reuse_record(&verdict, known, actual, false)),
                    rejected: false,
                }
            } else if allow_partial_corpus {
                ReuseOutcome {
                    said: new_warning(m.as_str()),
                    verdict: Ok(new_reuse_record(&verdict, known, actual, true)),
                    rejected: false,
                }
            } else {
                ReuseOutcome { said: Said::Nothing, verdict: Err(m), rejected: true }
            }
        },
    }
}

/// A run over a reused corpus that is not waived goes on without a complaint only where the server
/// gave no count, an estimate, or a count that is not short of a known size.
pub proof fn an_unwaived_run_is_whole_or_unverified(
    o: ReuseOutcome,
    expected: Result<u64, Seq<char>>,
    actual: Option<CorpusCount>,
    engine: Seq<char>,
    dataset: Seq<char>,
)
    requires
        concludes(o, expected, actual, engine, dataset, false),
        o.verdict is Ok,
    ensures
        actual matches Some(count) ==> (expected matches Ok(n) && (count.approximate || count.rows
            >= n)),
{
}

/// A missing count on the server's side never refuses a run, whatever is known of the dataset.
pub proof fn a_missing_count_never_refuses(
    o: ReuseOutcome,
    expected: Result<u64, Seq<char>>,
    engine: Seq<char>,
    dataset: Seq<char>,
    allow_partial_corpus: bool,
)
    requires
        concludes(o, expected, None, engine, dataset, allow_partial_corpus),
    ensures
        o.verdict is Ok,
        !o.rejected,
{
}

/// A verdict is what the two counts say: short where the server has fewer rows than are expected, a surplus
/// where it has more, verified where it has as many, always with both counts as they are.
pub proof fn verdicts_say_what_the_counts_say(
    v: ReusePrecondition,
    n: u64,
    count: CorpusCount,
    engine: Seq<char>,
)
    requires
        is_verdict(v, Ok(n), Some(count), engine),
    ensures
        v is Short <==> count.rows < n,
        v is Surplus <==> count.rows > n,
        v is Verified <==> count.rows == n,
        v matches ReusePrecondition::Short { actual, expected, approximate } ==> actual == count.rows
            && expected == n && approximate == count.approximate,
        v matches ReusePrecondition::Surplus { actual, expected, approximate } ==> actual == count.rows
            && expected == n && approximate == count.approximate,
        v matches ReusePrecondition::Verified { actual, expected, approximate } ==> actual == count.rows
            && expected == n && approximate == count.approximate,
{
}

/// What was measured is what is expected, whatever is declared; a declaration stands for what cannot be
/// measured only, and only where it is positive. Of a declaration that disagrees there is a warning.
pub proof fn what_was_measured_is_expected(facts: DatasetFacts)
    ensures
        facts.measured matches Ok(Some(n)) ==> expected_rows(facts) == Ok::<u64, Seq<char>>(n),
        facts.measured is Err ==> expected_rows(facts) is Err,
        facts.measured matches Ok(None) ==> (expected_rows(facts) is Ok
            <==> facts.may_fall_back_to_declared_count && (facts.vector_count matches Some(d) && d > 0)),
        facts.measured is Ok && facts.measured->Ok_0 is None ==> (expected_rows(facts) matches Ok(n)
            ==> facts.vector_count == Some(n as i64)),
        (facts.measured matches Ok(Some(n)) && (facts.vector_count matches Some(d) && d > 0 && d != n))
            <==> expected_rows_warning(facts) is Some,
{
}

/// The names in the record of a check are different.
proof fn lemma_record_names()
    ensures
        "status"@.len() == 6,
        "expected_rows"@.len() == 13,
        "actual_rows"@.len() == 11,
        "actual_is_estimate"@.len() == 18,
        "waived_by_allow_partial_corpus"@.len() == 30,
        "detail"@.len() == 6,
        "status"@ != "detail"@,
{
    reveal_strlit("status");
    reveal_strlit("expected_rows");
    reveal_strlit("actual_rows");
    reveal_strlit("actual_is_estimate");
    reveal_strlit("waived_by_allow_partial_corpus");
    reveal_strlit("detail");
    assert("status"@[0] != "detail"@[0]);
}

/// A short corpus that was counted refuses the run unless that is waived, and a waiver is recorded. One that
/// is only estimated never refuses it. Where the run goes on, the record has both counts, each under its own
/// name, and the verdict.
pub proof fn a_run_that_goes_on_records_both_counts(
    o: ReuseOutcome,
    n: u64,
    count: CorpusCount,
    engine: Seq<char>,
    dataset: Seq<char>,
    allow_partial_corpus: bool,
)
    requires
        concludes(o, Ok(n), Some(count), engine, dataset, allow_partial_corpus),
    ensures
        o.verdict is Err <==> count.rows < n && !count.approximate && !allow_partial_corpus,
        o.rejected <==> o.verdict is Err,
        o.verdict matches Ok(j) ==> {
            &&& j@.member("expected_rows"@) == Some(json::count_view(n))
            &&& j@.member("actual_rows"@) == Some(json::count_view(count.rows))
            &&& j@.member("actual_is_estimate"@) == Some(JsonView::Bool(count.approximate))
            &&& j@.member("waived_by_allow_partial_corpus"@) == Some(
                JsonView::Bool(count.rows < n && !count.approximate),
            )
            &&& count.rows < n ==> j@.member("status"@) == Some(JsonView::Text("short"@))
            &&& count.rows > n ==> j@.member("status"@) == Some(JsonView::Text("surplus"@))
            &&& count.rows == n ==> j@.member("status"@) == Some(JsonView::Text("verified"@))
        },
        count.rows == n <==> o.said is Note,
{
    broadcast use json::put_then_member;

    lemma_record_names();
}

/// Where the expected number of rows is not known but the server gave a count, the run is refused unless
/// that is waived; the record then says why, and has no expected number.
pub proof fn an_unknown_size_is_recorded_with_its_reason(
    o: ReuseOutcome,
    why: Seq<char>,
    count: CorpusCount,
    engine: Seq<char>,
    dataset: Seq<char>,
    allow_partial_corpus: bool,
)
    requires
        concludes(o, Err(why), Some(count), engine, dataset, allow_partial_corpus),
    ensures
        o.verdict is Ok <==> allow_partial_corpus,
        o.rejected <==> !allow_partial_corpus,
        o.verdict matches Ok(j) ==> {
            &&& j@.member("detail"@) == Some(JsonView::Text(why))
            &&& j@.member("expected_rows"@) == Some(JsonView::Null)
            &&& j@.member("actual_rows"@) == Some(json::count_view(count.rows))
            &&& j@.member("waived_by_allow_partial_corpus"@) == Some(JsonView::Bool(true))
            &&& j@.member("status"@) == Some(JsonView::Text("corpus_size_unknown"@))
        },
{
    broadcast use json::put_then_member;

    lemma_record_names();
}

/// A failure to fetch a dataset is added to the reason where the size is not known, and changes nothing
/// where it is.
pub proof fn a_known_size_is_kept(n: u64, why: Seq<char>, e: Seq<char>)
    ensures
        with_resolve_error(Ok(n), Some(e)) == Ok::<u64, Seq<char>>(n),
        with_resolve_error(Ok(n), None) == Ok::<u64, Seq<char>>(n),
        with_resolve_error(Err(why), None) == Err::<u64, Seq<char>>(why),
        with_resolve_error(Err(why), Some(e)) matches Err(m) && why.is_prefix_of(m) && m.skip(
            m.len() - e.len(),
        ) == e,
{
    let m = resolve_error_note(why, e);
    assert(m.skip(m.len() - e.len()) =~= e);
}

/// A schema has fields to filter by where it is an object with a member, and only there.
pub proof fn schemas_with_a_member_have_fields(members: Seq<(Seq<char>, JsonView)>)
    ensures
        has_fields(Some(JsonView::Object(members))) <==> members.len() > 0,
        !has_fields(None),
        !has_fields(Some(JsonView::Null)),
{
}

/// A probe that failed and was waived is recorded as such, with the reason.
pub proof fn failed_probes_are_recorded(why: Seq<char>)
    ensures
        probe_record(why).member("status"@) == Some(JsonView::Text("probe_failed"@)),
        probe_record(why).member("detail"@) == Some(JsonView::Text(why)),
        probe_record(why).member("waived_by_allow_partial_corpus"@) == Some(JsonView::Bool(true)),
{
    broadcast use json::put_then_member;

    lemma_record_names();
}

} // verus!
