//! What a run of the benchmark does: the options it accepts, the engines and datasets it takes, and the
//! searches it makes.
use vstd::prelude::*;

use crate::experiment::results::SearchParams;
use crate::float_bits::{self, below64, finite64, not_above64, same_number64, INFINITE64};
use crate::json::{self, count_value, new_members, put_member, text_value, Json, JsonView};
use crate::text::{self, decimal_text, join_texts, parse_unsigned, same_text, split_text};

verus! {

/// The options of a run. Durations and rates are held as bit patterns.
pub struct RunOptions {
    pub host: String,
    pub engines_file: Option<String>,
    pub engines: Vec<String>,
    pub datasets: Vec<String>,
    pub allow_partial_configs: bool,
    pub allow_partial_corpus: bool,
    pub dump_raw_latencies: bool,
    pub exit_on_error: bool,
    pub fail_on_dropped_queries: bool,
    pub keep_data: bool,
    pub reset_between_configs: bool,
    pub skip_if_exists: bool,
    pub skip_search: bool,
    pub skip_upload: bool,
    pub skip_vector_index: bool,
    pub repetitions: u64,
    pub queries: i64,
    pub parallels: Vec<i32>,
    pub ef_runtime: Vec<i64>,
    pub update_search_ratio: Vec<String>,
    pub target_qps: u64,
    pub search_duration: u64,
    pub warmup_seconds: u64,
    pub max_lateness_ms: u64,
}

/// Whether a pattern is a finite number above zero.
pub open spec fn positive(bits: u64) -> bool {
    float_bits::is_finite64(bits) && float_bits::less64(0, bits)
}

/// Whether a pattern is a finite number that is not below zero.
pub open spec fn nonnegative(bits: u64) -> bool {
    float_bits::is_finite64(bits) && float_bits::at_most64(0, bits)
}

/// Whether a pattern is zero.
pub open spec fn is_zero(bits: u64) -> bool {
    !float_bits::is_nan64(bits) && float_bits::order64(bits) == 0
}

/// What is wrong with the options of a run, where something is.
pub open spec fn options_error(a: RunOptions) -> Option<Seq<char>> {
    if !is_zero(a.target_qps) {
        if !positive(a.target_qps) {
            Some("--target-qps must be finite and greater than zero"@)
        } else if !positive(a.search_duration) {
            Some("--search-duration is required and must be greater than zero with --target-qps"@)
        } else if !nonnegative(a.warmup_seconds) {
            Some("--warmup-seconds must be finite and non-negative"@)
        } else if !nonnegative(a.max_lateness_ms) {
            Some("--max-lateness-ms must be finite and non-negative"@)
        } else if a.skip_vector_index || a.update_search_ratio@.len() > 0 {
            Some("--target-qps currently supports search-only vector benchmarks"@)
        } else {
            None
        }
    } else if !nonnegative(a.search_duration) {
        Some("--search-duration must be finite and non-negative"@)
    } else if !is_zero(a.warmup_seconds) && !float_bits::less64(0, a.search_duration) {
        Some("--warmup-seconds requires --target-qps or --search-duration"@)
    } else {
        None
    }
}

/// Checks the options of a run.
pub fn check_options(a: &RunOptions) -> (r: Result<(), String>)
    ensures
        match options_error(*a) {
            Some(e) => r matches Err(m) && m@ == e,
            None => r is Ok,
        },
{
    if !same_number64(a.target_qps, 0) {
        if !finite64(a.target_qps) || not_above64(a.target_qps, 0) {
            return Err("--target-qps must be finite and greater than zero".to_owned());
        }
        if !finite64(a.search_duration) || not_above64(a.search_duration, 0) {
            return Err(
                "--search-duration is required and must be greater than zero with --target-qps".to_owned(),
            );
        }
        if !finite64(a.warmup_seconds) || below64(a.warmup_seconds, 0) {
            return Err("--warmup-seconds must be finite and non-negative".to_owned());
        }
        if !finite64(a.max_lateness_ms) || below64(a.max_lateness_ms, 0) {
            return Err("--max-lateness-ms must be finite and non-negative".to_owned());
        }
        if a.skip_vector_index || a.update_search_ratio.len() > 0 {
            return Err("--target-qps currently supports search-only vector benchmarks".to_owned());
        }
    } else {
        if !finite64(a.search_duration) || below64(a.search_duration, 0) {
            return Err("--search-duration must be finite and non-negative".to_owned());
        }
        if !same_number64(a.warmup_seconds, 0) && not_above64(a.search_duration, 0) {
            return Err("--warmup-seconds requires --target-qps or --search-duration".to_owned());
        }
    }
    Ok(())
}

/// A configured engine: the name by which it is asked for, its type, and the name of its configuration.
pub struct EngineEntry {
    pub name: String,
    pub engine: Option<String>,
    pub config_name: String,
    /// Whether the name is asked for.
    pub wanted: bool,
}

/// The type of an engine, or another text where it has none.
pub open spec fn type_or(e: EngineEntry, other: Seq<char>) -> Seq<char> {
    match e.engine {
        Some(t) => t@,
        None => other,
    }
}

/// The type of an engine, or another text where it has none.
fn engine_type<'a>(e: &'a EngineEntry, other: &'a str) -> (r: &'a str)
    ensures
        r@ == type_or(*e, other@),
{
    match &e.engine {
        Some(t) => t.as_str(),
        None => other,
    }
}

/// Whether the benchmark supports a type of engine.
pub open spec fn supported(engine: Seq<char>) -> bool {
    engine == "redis"@
        || engine == "vectorsets"@
        || engine == "elasticsearch"@
        || engine == "opensearch"@
        || engine == "qdrant"@
        || engine == "weaviate"@
        || engine == "pgvector"@
        || engine == "milvus"@
        || engine == "mongodb"@
        || engine == "valkey"@
        || engine == "turbopuffer"@
        || engine == "dragonfly"@
        || engine == "kividb"@
        || engine == "vertex"@
        || engine == "chroma"@
}

/// Whether the benchmark supports a type of engine.
pub fn is_supported(engine: &str) -> (r: bool)
    ensures
        r == supported(engine@),
{
    same_text(engine, "redis")
        || same_text(engine, "vectorsets")
        || same_text(engine, "elasticsearch")
        || same_text(engine, "opensearch")
        || same_text(engine, "qdrant")
        || same_text(engine, "weaviate")
        || same_text(engine, "pgvector")
        || same_text(engine, "milvus")
        || same_text(engine, "mongodb")
        || same_text(engine, "valkey")
        || same_text(engine, "turbopuffer")
        || same_text(engine, "dragonfly")
        || same_text(engine, "kividb")
        || same_text(engine, "vertex")
        || same_text(engine, "chroma")
}

/// What is said where no engine is left.
pub open spec fn no_engine_error(patterns: Seq<char>) -> Seq<char> {
    "No engines match pattern: '"@
        + patterns
        + "'. Supported: [\"redis\", \"vectorsets\", \"elasticsearch\", \"opensearch\", \"qdrant\", \"weaviate\", \"pgvector\", \"milvus\", \"mongodb\", \"valkey\", \"turbopuffer\", \"dragonfly\", \"kividb\", \"vertex\", \"chroma\"]."@
}

/// What is said where no engine is left.
fn new_no_engine_error(patterns: &str) -> (m: String)
    ensures
        m@ == no_engine_error(patterns@),
{
    let mut m: String = "No engines match pattern: '".to_owned();
    m.append(patterns);
    m.append("'. Supported: [\"redis\", \"vectorsets\", \"elasticsearch\", \"opensearch\", \"qdrant\", \"weaviate\", \"pgvector\", \"milvus\", \"mongodb\", \"valkey\", \"turbopuffer\", \"dragonfly\", \"kividb\", \"vertex\", \"chroma\"].");
    m
}

/// What is said where no dataset is left.
pub open spec fn no_dataset_error(patterns: Seq<char>) -> Seq<char> {
    "No datasets match pattern: '"@
        + patterns
        + "'"@
}

/// What is said where no dataset is left.
fn new_no_dataset_error(patterns: &str) -> (m: String)
    ensures
        m@ == no_dataset_error(patterns@),
{
    let mut m: String = "No datasets match pattern: '".to_owned();
    m.append(patterns);
    m.append("'");
    m
}

/// The places below `n` that are marked.
pub open spec fn marked(marks: Seq<bool>, n: int) -> Seq<int>
    decreases n,
{
    if n <= 0 {
        Seq::empty()
    } else if marks[n - 1] {
        marked(marks, n - 1).push(n - 1)
    } else {
        marked(marks, n - 1)
    }
}

/// Places as mathematical integers.
pub open spec fn places(s: Seq<usize>) -> Seq<int> {
    Seq::new(s.len(), |i: int| s[i] as int)
}

/// The places that are marked.
fn marked_places(marks: &[bool]) -> (r: Vec<usize>)
    ensures
        places(r@) == marked(marks@, marks@.len() as int),
{
    let mut r: Vec<usize> = Vec::new();
    let mut i: usize = 0;
    assert(places(r@) =~= Seq::empty());
    while i < marks.len()
        invariant
            i <= marks@.len(),
            places(r@) == marked(marks@, i as int),
        decreases marks@.len() - i,
    {
        let ghost before = places(r@);
        if marks[i] {
            r.push(i);
            assert(places(r@) =~= before.push(i as int));
        }
        i += 1;
    }
    r
}

/// The datasets that are asked for, by their places. `wanted` says of each whether it is; none is an
/// error.
pub fn select_datasets(wanted: &[bool], patterns: &[String]) -> (r: Result<Vec<usize>, String>)
    ensures
        ({
            let chosen = marked(wanted@, wanted@.len() as int);
            if chosen.len() == 0 {
                r matches Err(e) && e@ == no_dataset_error(
                    text::joined(text::texts_view(patterns@), ", "@),
                )
            } else {
                r matches Ok(v) && places(v@) == chosen
            }
        }),
{
    let v: Vec<usize> = marked_places(wanted);
    assert(places(v@).len() == v@.len());
    if v.len() == 0 {
        return Err(new_no_dataset_error(join_texts(patterns, ", ").as_str()));
    }
    Ok(v)
}

/// Of each engine, whether it is supported and asked for.
pub open spec fn engine_marks(entries: Seq<EngineEntry>) -> Seq<bool> {
    Seq::new(entries.len(), |i: int| supported(type_or(entries[i], ""@)) && entries[i].wanted)
}

/// The engines that are supported and asked for, by their places. None is an error.
pub fn select_engines(entries: &[EngineEntry], patterns: &[String]) -> (r: Result<Vec<usize>, String>)
    ensures
        ({
            let chosen = marked(engine_marks(entries@), entries@.len() as int);
            if chosen.len() == 0 {
                r matches Err(e) && e@ == no_engine_error(
                    text::joined(text::texts_view(patterns@), ", "@),
                )
            } else {
                r matches Ok(v) && places(v@) == chosen
            }
        }),
{
    let mut marks: Vec<bool> = Vec::new();
    let mut i: usize = 0;
    while i < entries.len()
        invariant
            i <= entries@.len(),
            marks@.len() == i,
            forall|j: int| 0 <= j < i ==> #[trigger] marks@[j] == engine_marks(entries@)[j],
        decreases entries@.len() - i,
    {
        marks.push(is_supported(engine_type(&entries[i], "")) && entries[i].wanted);
        i += 1;
    }
    assert(marks@ =~= engine_marks(entries@));
    let v: Vec<usize> = marked_places(marks.as_slice());
    assert(places(v@).len() == v@.len());
    if v.len() == 0 {
        return Err(new_no_engine_error(join_texts(patterns, ", ").as_str()));
    }
    Ok(v)
}

/// Whether an engine can search for a set duration.
pub open spec fn runs_for_a_duration(e: EngineEntry) -> bool {
    type_or(e, "unknown"@) == "redis"@ || type_or(e, "unknown"@) == "vertex"@
}

/// The names of the engines among the first `n` that cannot.
pub open spec fn without_duration(entries: Seq<EngineEntry>, n: int) -> Seq<Seq<char>>
    decreases n,
{
    if n <= 0 {
        Seq::empty()
    } else if runs_for_a_duration(entries[n - 1]) {
        without_duration(entries, n - 1)
    } else {
        without_duration(entries, n - 1).push(entries[n - 1].name@)
    }
}

/// What is said of engines that cannot search for a set duration.
pub open spec fn duration_error(names: Seq<char>) -> Seq<char> {
    "duration-bounded search currently supports Redis and Vertex only; unsupported: "@
        + names
}

/// What is said of engines that cannot search for a set duration.
fn new_duration_error(names: &str) -> (m: String)
    ensures
        m@ == duration_error(names@),
{
    let mut m: String = "duration-bounded search currently supports Redis and Vertex only; unsupported: ".to_owned();
    m.append(names);
    m
}

/// Whether a run searches for a set duration or at a set rate.
pub open spec fn is_timed(a: RunOptions) -> bool {
    float_bits::less64(0, a.target_qps) || float_bits::less64(0, a.search_duration)
}

/// Checks that the chosen engines can search for a set duration, where that is asked for.
pub fn check_durations_supported(a: &RunOptions, engines: &[EngineEntry]) -> (r: Result<(), String>)
    ensures
        ({
            let names = without_duration(engines@, engines@.len() as int);
            if is_timed(*a) && names.len() > 0 {
                r matches Err(e) && e@ == duration_error(text::joined(names, ", "@))
            } else {
                r is Ok
            }
        }),
{
    if !below64(0, a.target_qps) && !below64(0, a.search_duration) {
        return Ok(());
    }
    let mut names: Vec<String> = Vec::new();
    let mut i: usize = 0;
    assert(text::texts_view(names@) =~= Seq::empty());
    while i < engines.len()
        invariant
            i <= engines@.len(),
            text::texts_view(names@) == without_duration(engines@, i as int),
        decreases engines@.len() - i,
    {
        let ghost before = text::texts_view(names@);
        let kind: &str = engine_type(&engines[i], "unknown");
        if !same_text(kind, "redis") && !same_text(kind, "vertex") {
            names.push(engines[i].name.clone());
            assert(text::texts_view(names@) =~= before.push(engines@[i as int].name@));
        }
        i += 1;
    }
    assert(text::texts_view(names@).len() == names@.len());
    if names.len() > 0 {
        return Err(new_duration_error(join_texts(names.as_slice(), ", ").as_str()));
    }
    Ok(())
}

/// Whether an engine is the first of its type.
pub open spec fn first_of_type(engines: Seq<EngineEntry>, i: int) -> bool {
    forall|j: int|
        0 <= j < i ==> type_or(#[trigger] engines[j], "unknown"@) != type_or(
            engines[i],
            "unknown"@,
        )
}

/// Of each engine, whether it is the first of its type.
pub open spec fn first_marks(engines: Seq<EngineEntry>) -> Seq<bool> {
    Seq::new(engines.len(), |i: int| first_of_type(engines, i))
}

/// Of several configurations of one type of engine, the first: without an index over vectors they are
/// all the same.
pub fn dedup_by_type(engines: &[EngineEntry]) -> (r: Vec<usize>)
    ensures
        places(r@) == marked(first_marks(engines@), engines@.len() as int),
{
    let mut marks: Vec<bool> = Vec::new();
    let mut i: usize = 0;
    while i < engines.len()
        invariant
            i <= engines@.len(),
            marks@.len() == i,
            forall|j: int| 0 <= j < i ==> #[trigger] marks@[j] == first_of_type(engines@, j),
        decreases engines@.len() - i,
    {
        let mut first: bool = true;
        let mut j: usize = 0;
        while j < i && first
            invariant
                j <= i < engines@.len(),
                first ==> (forall|k: int|
                    0 <= k < j ==> type_or(#[trigger] engines@[k], "unknown"@) != type_or(
                        engines@[i as int],
                        "unknown"@,
                    )),
                !first ==> !first_of_type(engines@, i as int),
            decreases i - j + if first {
                1int
            } else {
                0int
            },
        {
            if same_text(engine_type(&engines[j], "unknown"), engine_type(&engines[i], "unknown")) {
                first = false;
            } else {
                j += 1;
            }
        }
        marks.push(first);
        i += 1;
    }
    assert(marks@ =~= first_marks(engines@));
    marked_places(marks.as_slice())
}

/// No two engines that are kept have the same type, and for every engine one of its type is kept.
pub proof fn dedup_keeps_one_of_each_type(engines: Seq<EngineEntry>, i: int, j: int)
    requires
        0 <= j < i < engines.len(),
    ensures
        first_of_type(engines, i) ==> type_or(engines[j], "unknown"@) != type_or(
            engines[i],
            "unknown"@,
        ),
        exists|k: int|
            0 <= k <= i && #[trigger] first_of_type(engines, k) && type_or(engines[k], "unknown"@)
                == type_or(engines[i], "unknown"@),
{
    lemma_first_of_type(engines, i);
}

/// There is a first of every type.
proof fn lemma_first_of_type(engines: Seq<EngineEntry>, i: int)
    requires
        0 <= i < engines.len(),
    ensures
        exists|k: int|
            0 <= k <= i && #[trigger] first_of_type(engines, k) && type_or(engines[k], "unknown"@)
                == type_or(engines[i], "unknown"@),
    decreases i,
{
    if !first_of_type(engines, i) {
        let j = choose|j: int|
            0 <= j < i && type_or(#[trigger] engines[j], "unknown"@) == type_or(
                engines[i],
                "unknown"@,
            );
        lemma_first_of_type(engines, j);
    }
}

/// What a configuration writes to: the index or collection that it derives from its name.
pub struct IndexClaim {
    pub engine: Option<String>,
    pub config_name: String,
    pub index: String,
    /// Whether the name of the index is set word for word.
    pub exact: bool,
}

/// The setting that the index of an engine is named by, for the engines that overwrite an index of the
/// same name.
pub open spec fn index_setting(engine: Seq<char>) -> Option<Seq<char>> {
    if engine == "redis"@ {
        Some("REDIS_INDEX_NAME"@)
    } else if engine == "valkey"@ {
        Some("VALKEY_INDEX_NAME"@)
    } else if engine == "dragonfly"@ {
        Some("DRAGONFLY_INDEX_NAME"@)
    } else if engine == "kividb"@ {
        Some("KIVIDB_INDEX_NAME"@)
    } else if engine == "vectorsets"@ {
        Some("VECTORSETS_INDEX_NAME"@)
    } else if engine == "mongodb"@ {
        Some("MONGODB_COLLECTION"@)
    } else {
        None
    }
}

/// The setting that the index of an engine is named by.
pub fn index_name_setting(engine: &str) -> (r: Option<&'static str>)
    ensures
        match index_setting(engine@) {
            Some(s) => r matches Some(t) && t@ == s,
            None => r is None,
        },
{
    if same_text(engine, "redis") {
        Some("REDIS_INDEX_NAME")
    } else if same_text(engine, "valkey") {
        Some("VALKEY_INDEX_NAME")
    } else if same_text(engine, "dragonfly") {
        Some("DRAGONFLY_INDEX_NAME")
    } else if same_text(engine, "kividb") {
        Some("KIVIDB_INDEX_NAME")
    } else if same_text(engine, "vectorsets") {
        Some("VECTORSETS_INDEX_NAME")
    } else if same_text(engine, "mongodb") {
        Some("MONGODB_COLLECTION")
    } else {
        None
    }
}

/// The type of the engine of a claim.
pub open spec fn claim_type(c: IndexClaim) -> Seq<char> {
    match c.engine {
        Some(t) => t@,
        None => ""@,
    }
}

/// Whether two configurations of one engine that overwrites would write to the same index.
pub open spec fn collide(a: IndexClaim, b: IndexClaim) -> bool {
    index_setting(claim_type(a)) is Some && claim_type(a) == claim_type(b) && a.index@ == b.index@
}

/// The last of the first `m` claims that collides with `c`.
pub open spec fn earlier_claim(claims: Seq<IndexClaim>, c: IndexClaim, m: int) -> Option<int>
    decreases m,
{
    if m <= 0 {
        None
    } else if collide(claims[m - 1], c) {
        Some(m - 1)
    } else {
        earlier_claim(claims, c, m - 1)
    }
}

/// The first claim among `n` that collides with an earlier one, and that one.
pub open spec fn first_collision(claims: Seq<IndexClaim>, n: int) -> Option<(int, int)>
    decreases n,
{
    if n <= 0 {
        None
    } else {
        match first_collision(claims, n - 1) {
            Some(c) => Some(c),
            None => match earlier_claim(claims, claims[n - 1], n - 1) {
                Some(j) => Some((j, n - 1)),
                None => None,
            },
        }
    }
}

/// What is added where the name is set word for word.
pub open spec fn exact_hint(setting: Seq<char>) -> Seq<char> {
    " ("@
        + setting
        + "_EXACT is set — exact mode requires a single config per engine.)"@
}

/// What is added where the name is set word for word.
fn new_exact_hint(setting: &str) -> (m: String)
    ensures
        m@ == exact_hint(setting@),
{
    let mut m: String = " (".to_owned();
    m.append(setting);
    m.append("_EXACT is set — exact mode requires a single config per engine.)");
    m
}

/// What is said of two configurations that write to the same index.
pub open spec fn collision_error(first: Seq<char>, second: Seq<char>, index: Seq<char>, engine: Seq<char>, object: Seq<char>, hint: Seq<char>) -> Seq<char> {
    "Configs '"@
        + first
        + "' and '"@
        + second
        + "' derive the same index namespace '"@
        + index
        + "' (the "@
        + engine
        + " "@
        + object
        + "); rename them — a sweep would silently overwrite one with the other (issue #151-4)."@
        + hint
}

/// What is said of two configurations that write to the same index.
fn new_collision_error(first: &str, second: &str, index: &str, engine: &str, object: &str, hint: &str) -> (m: String)
    ensures
        m@ == collision_error(first@, second@, index@, engine@, object@, hint@),
{
    let mut m: String = "Configs '".to_owned();
    m.append(first);
    m.append("' and '");
    m.append(second);
    m.append("' derive the same index namespace '");
    m.append(index);
    m.append("' (the ");
    m.append(engine);
    m.append(" ");
    m.append(object);
    m.append("); rename them — a sweep would silently overwrite one with the other (issue #151-4).");
    m.append(hint);
    m
}

/// What is said of a collision.
pub open spec fn collision_message(claims: Seq<IndexClaim>, j: int, i: int) -> Seq<char> {
    let engine = claim_type(claims[i]);
    collision_error(
        claims[j].config_name@,
        claims[i].config_name@,
        claims[i].index@,
        engine,
        if engine == "mongodb"@ {
            "collection"@
        } else {
            "index"@
        },
        if claims[i].exact {
            exact_hint(index_setting(engine)->Some_0)
        } else {
            ""@
        },
    )
}

/// Checks that no two configurations of an engine that overwrites would write to the same index.
pub fn check_collisions(claims: &[IndexClaim]) -> (r: Result<(), String>)
    ensures
        match first_collision(claims@, claims@.len() as int) {
            None => r is Ok,
            Some((j, i)) => r matches Err(e) && e@ == collision_message(claims@, j, i),
        },
{
    let mut i: usize = 0;
    while i < claims.len()
        invariant
            i <= claims@.len(),
            first_collision(claims@, i as int) is None,
        decreases claims@.len() - i,
    {
        let c: &IndexClaim = &claims[i];
        let engine: &str = match &c.engine {
            Some(t) => t.as_str(),
            None => "",
        };
        if let Some(setting) = index_name_setting(engine) {
            let mut m: usize = i;
            while m > 0
                invariant
                    m <= i < claims@.len(),
                    *c == claims@[i as int],
                    engine@ == claim_type(*c),
                    index_setting(engine@) == Some(setting@),
                    earlier_claim(claims@, *c, i as int) == earlier_claim(claims@, *c, m as int),
                    first_collision(claims@, i as int) is None,
                decreases m,
            {
                let d: &IndexClaim = &claims[m - 1];
                let other: &str = match &d.engine {
                    Some(t) => t.as_str(),
                    None => "",
                };
                if same_text(other, engine) && same_text(d.index.as_str(), c.index.as_str()) {
                    let hint: String = if c.exact {
                        new_exact_hint(setting)
                    } else {
                        "".to_owned()
                    };
                    let object: &str = if same_text(engine, "mongodb") {
                        "collection"
                    } else {
                        "index"
                    };
                    proof {
                        lemma_collision_stays(claims@, i + 1, claims@.len() as int);
                    }
                    return Err(
                        new_collision_error(
                            d.config_name.as_str(),
                            c.config_name.as_str(),
                            c.index.as_str(),
                            engine,
                            object,
                            hint.as_str(),
                        ),
                    );
                }
                m -= 1;
            }
        } else {
            proof {
                lemma_unguarded(claims@, *c, i as int);
            }
        }
        i += 1;
    }
    Ok(())
}

/// The first collision stays the first.
proof fn lemma_collision_stays(claims: Seq<IndexClaim>, n: int, all: int)
    requires
        0 <= n <= all,
        first_collision(claims, n) is Some,
    ensures
        first_collision(claims, all) == first_collision(claims, n),
    decreases all - n,
{
    if n < all {
        lemma_collision_stays(claims, n, all - 1);
    }
}

/// An engine that does not overwrite collides with none.
proof fn lemma_unguarded(claims: Seq<IndexClaim>, c: IndexClaim, m: int)
    requires
        index_setting(claim_type(c)) is None,
    ensures
        earlier_claim(claims, c, m) is None,
    decreases m,
{
    if m > 0 {
        lemma_unguarded(claims, c, m - 1);
    }
}

/// Where the check passes, no two configurations of an engine that overwrites share an index.
pub proof fn checked_claims_are_apart(claims: Seq<IndexClaim>, j: int, i: int, n: int)
    requires
        first_collision(claims, n) is None,
        0 <= j < i < n <= claims.len(),
    ensures
        !collide(claims[j], claims[i]),
    decreases n,
{
    if i < n - 1 {
        checked_claims_are_apart(claims, j, i, n - 1);
    } else {
        lemma_no_earlier_claim(claims, claims[i], i, j);
    }
}

/// Where no earlier claim collides, this one does not.
proof fn lemma_no_earlier_claim(claims: Seq<IndexClaim>, c: IndexClaim, m: int, j: int)
    requires
        earlier_claim(claims, c, m) is None,
        0 <= j < m,
    ensures
        !collide(claims[j], c),
    decreases m,
{
    if j < m - 1 {
        lemma_no_earlier_claim(claims, c, m - 1, j);
    }
}

/// How an engine is run without an index over vectors: under a name of its own, or not at all.
pub enum NoVectorRun {
    Renamed(String),
    NotSupported(String),
}

/// What is said of an engine that cannot run without an index over vectors.
pub open spec fn no_vector_warning(engine: Seq<char>) -> Seq<char> {
    "WARNING: --skip-vector-index not implemented for engine '"@
        + engine
        + "', skipping"@
}

/// What is said of an engine that cannot run without an index over vectors.
fn new_no_vector_warning(engine: &str) -> (m: String)
    ensures
        m@ == no_vector_warning(engine@),
{
    let mut m: String = "WARNING: --skip-vector-index not implemented for engine '".to_owned();
    m.append(engine);
    m.append("', skipping");
    m
}

/// How an engine is run without an index over vectors.
pub fn without_vector_index(engine: Option<&String>) -> (r: NoVectorRun)
    ensures
        ({
            let kind = match engine {
                Some(t) => t@,
                None => "unknown"@,
            };
            if kind == "redis"@ || kind == "valkey"@ || kind == "mongodb"@ {
                r matches NoVectorRun::Renamed(name) && name@ == kind + "-no-vector"@
            } else {
                r matches NoVectorRun::NotSupported(m) && m@ == no_vector_warning(kind)
            }
        }),
{
    let kind: &str = match engine {
        Some(t) => t.as_str(),
        None => "unknown",
    };
    if same_text(kind, "redis") || same_text(kind, "valkey") || same_text(kind, "mongodb") {
        let mut name: String = kind.to_owned();
        name.append("-no-vector");
        NoVectorRun::Renamed(name)
    } else {
        NoVectorRun::NotSupported(new_no_vector_warning(kind))
    }
}

/// What is said of a run that keeps the data of every configuration.
pub open spec fn accumulation_note(configs: nat) -> Seq<char> {
    "NOTE: --keep-data with "@
        + text::decimal(configs)
        + " configs keeps EVERY config's data resident simultaneously (peak memory ≈ sum of all configs' datasets). On a memory-bounded server pass --reset-between-configs to keep only one config's data at a time, or drop --keep-data."@
}

/// What is said of a run that keeps the data of every configuration.
fn new_accumulation_note(configs: u64) -> (m: String)
    ensures
        m@ == accumulation_note(configs as nat),
{
    let mut m: String = "NOTE: --keep-data with ".to_owned();
    m.append(decimal_text(configs).as_str());
    m.append(" configs keeps EVERY config's data resident simultaneously (peak memory ≈ sum of all configs' datasets). On a memory-bounded server pass --reset-between-configs to keep only one config's data at a time, or drop --keep-data.");
    m
}

/// What is said of a run that keeps the data of several configurations at once.
pub fn keep_data_note(a: &RunOptions, configs: usize) -> (r: Option<String>)
    ensures
        a.keep_data && configs > 1 && !a.reset_between_configs ==> (r matches Some(m) && m@
            == accumulation_note(configs as nat)),
        !(a.keep_data && configs > 1 && !a.reset_between_configs) ==> r is None,
{
    if a.keep_data && configs > 1 && !a.reset_between_configs {
        Some(new_accumulation_note(configs as u64))
    } else {
        None
    }
}

/// A failure with the configuration and the dataset that it is of.
pub open spec fn named_failure(config: Seq<char>, dataset: Seq<char>, why: Seq<char>) -> Seq<char> {
    "[config="@
        + config
        + " dataset="@
        + dataset
        + "] "@
        + why
}

/// A failure with the configuration and the dataset that it is of.
fn new_named_failure(config: &str, dataset: &str, why: &str) -> (m: String)
    ensures
        m@ == named_failure(config@, dataset@, why@),
{
    let mut m: String = "[config=".to_owned();
    m.append(config);
    m.append(" dataset=");
    m.append(dataset);
    m.append("] ");
    m.append(why);
    m
}

/// A failure with the configuration and the dataset that it is of.
pub fn name_failure(config: &str, dataset: &str, why: &str) -> (r: String)
    ensures
        r@ == named_failure(config@, dataset@, why@),
{
    new_named_failure(config, dataset, why)
}

/// Whether the data of a configuration stays on the server. A run that did not upload it never deletes
/// it; otherwise it stays where that is asked for, and with a reset between configurations only for
/// the last.
pub open spec fn keeps_data(a: RunOptions, is_last_config: bool) -> bool {
    a.skip_upload || (a.keep_data && (is_last_config || !a.reset_between_configs))
}

/// Whether the data of a configuration stays on the server.
pub fn keep_data(a: &RunOptions, is_last_config: bool) -> (r: bool)
    ensures
        r == keeps_data(*a, is_last_config),
{
    a.skip_upload || (a.keep_data && (is_last_config || !a.reset_between_configs))
}

/// Why the data stays.
pub open spec fn keep_reason(a: RunOptions) -> Seq<char> {
    if a.skip_upload {
        "--skip-upload did not create this corpus, so it does not delete it"@
    } else {
        "cleanup skipped"@
    }
}

/// Why the data stays.
pub fn keep_data_reason(a: &RunOptions) -> (r: &'static str)
    ensures
        r@ == keep_reason(*a),
{
    if a.skip_upload {
        "--skip-upload did not create this corpus, so it does not delete it"
    } else {
        "cleanup skipped"
    }
}

/// What is said at the end of a run of what becomes of the data.
pub open spec fn final_stage_line(a: RunOptions, is_last_config: bool) -> Seq<char> {
    if keeps_data(a, is_last_config) {
        "Experiment stage: Keep data ("@ + keep_reason(a) + ")"@
    } else if a.keep_data {
        "Experiment stage: Cleanup (multi-config --keep-data: freeing this config's data before the next; only the last config's data is kept)"@
    } else {
        "Experiment stage: Cleanup (deleting index and data)"@
    }
}

/// What is said at the end of a run of what becomes of the data.
pub fn cleanup_line(a: &RunOptions, is_last_config: bool) -> (r: String)
    ensures
        r@ == final_stage_line(*a, is_last_config),
{
    if keep_data(a, is_last_config) {
        let mut m: String = "Experiment stage: Keep data (".to_owned();
        m.append(keep_data_reason(a));
        m.append(")");
        m
    } else if a.keep_data {
        "Experiment stage: Cleanup (multi-config --keep-data: freeing this config's data before the next; only the last config's data is kept)".to_owned()
    } else {
        "Experiment stage: Cleanup (deleting index and data)".to_owned()
    }
}

/// A run that did not upload its corpus never deletes it, whatever else is asked for.
pub proof fn a_reused_corpus_is_never_deleted(a: RunOptions, is_last_config: bool)
    requires
        a.skip_upload,
    ensures
        keeps_data(a, is_last_config),
{
}

/// How many updates there are for how many searches.
#[derive(Debug, Clone, Copy, PartialEq, Eq, Structural)]
pub struct UpdateSearchRatio {
    pub updates: u64,
    pub searches: u64,
}

/// What is said of a ratio that is not two numbers.
pub open spec fn ratio_format_error(s: Seq<char>) -> Seq<char> {
    "Invalid update-search-ratio format: '"@
        + s
        + "'. Expected 'U:S' (e.g., '1:10')"@
}

/// What is said of a ratio that is not two numbers.
fn new_ratio_format_error(s: &str) -> (m: String)
    ensures
        m@ == ratio_format_error(s@),
{
    let mut m: String = "Invalid update-search-ratio format: '".to_owned();
    m.append(s);
    m.append("'. Expected 'U:S' (e.g., '1:10')");
    m
}

/// What is said of a number of updates that is none.
pub open spec fn update_count_error(s: Seq<char>) -> Seq<char> {
    "Invalid update count: '"@
        + s
        + "'"@
}

/// What is said of a number of updates that is none.
fn new_update_count_error(s: &str) -> (m: String)
    ensures
        m@ == update_count_error(s@),
{
    let mut m: String = "Invalid update count: '".to_owned();
    m.append(s);
    m.append("'");
    m
}

/// What is said of a number of searches that is none.
pub open spec fn search_count_error(s: Seq<char>) -> Seq<char> {
    "Invalid search count: '"@
        + s
        + "'"@
}

/// What is said of a number of searches that is none.
fn new_search_count_error(s: &str) -> (m: String)
    ensures
        m@ == search_count_error(s@),
{
    let mut m: String = "Invalid search count: '".to_owned();
    m.append(s);
    m.append("'");
    m
}

/// A number that fits 64 bits, read from digits.
pub open spec fn read_count(s: Seq<char>) -> Option<u64> {
    match text::parsed_unsigned(s) {
        Some(n) => if n <= u64::MAX {
            Some(n as u64)
        } else {
            None
        },
        None => None,
    }
}

/// The ratio that a text gives, or what is wrong with it.
pub open spec fn read_ratio(s: Seq<char>) -> Result<UpdateSearchRatio, Seq<char>> {
    let parts = text::parted(s, ':');
    if parts.len() != 2 {
        Err(ratio_format_error(s))
    } else {
        match read_count(parts[0]) {
            None => Err(update_count_error(parts[0])),
            Some(updates) => match read_count(parts[1]) {
                None => Err(search_count_error(parts[1])),
                Some(searches) => if searches == 0 {
                    Err("Search count must be > 0"@)
                } else {
                    Ok(UpdateSearchRatio { updates, searches })
                },
            },
        }
    }
}

/// Reads a ratio of updates to searches. There must be a search.
pub fn parse_update_search_ratio(s: &str) -> (r: Result<UpdateSearchRatio, String>)
    ensures
        match read_ratio(s@) {
            Ok(ratio) => r matches Ok(x) && x == ratio,
            Err(e) => r matches Err(m) && m@ == e,
        },
{
    let parts: Vec<String> = split_text(s, ':');
    assert(text::texts_view(parts@).len() == parts@.len());
    if parts.len() != 2 {
        return Err(new_ratio_format_error(s));
    }
    assert(text::texts_view(parts@)[0] == parts@[0]@);
    assert(text::texts_view(parts@)[1] == parts@[1]@);
    let updates: u64 = match parse_unsigned(parts[0].as_str(), u64::MAX) {
        Some(n) => n,
        None => return Err(new_update_count_error(parts[0].as_str())),
    };
    let searches: u64 = match parse_unsigned(parts[1].as_str(), u64::MAX) {
        Some(n) => n,
        None => return Err(new_search_count_error(parts[1].as_str())),
    };
    if searches == 0 {
        return Err("Search count must be > 0".to_owned());
    }
    Ok(UpdateSearchRatio { updates, searches })
}

/// Whether `a` has fewer updates for each search than `b`.
pub open spec fn fewer_updates(a: UpdateSearchRatio, b: UpdateSearchRatio) -> bool {
    a.updates * b.searches < b.updates * a.searches
}

/// Whether `a` has fewer updates for each search than `b`.
fn has_fewer_updates(a: UpdateSearchRatio, b: UpdateSearchRatio) -> (r: bool)
    ensures
        r == fewer_updates(a, b),
{
    proof {
        assert(a.updates * b.searches <= 0xffff_ffff_ffff_ffff * 0xffff_ffff_ffff_ffff)
            by (nonlinear_arith)
            requires
                0 <= a.updates <= 0xffff_ffff_ffff_ffff,
                0 <= b.searches <= 0xffff_ffff_ffff_ffff,
        ;
        assert(b.updates * a.searches <= 0xffff_ffff_ffff_ffff * 0xffff_ffff_ffff_ffff)
            by (nonlinear_arith)
            requires
                0 <= b.updates <= 0xffff_ffff_ffff_ffff,
                0 <= a.searches <= 0xffff_ffff_ffff_ffff,
        ;
    }
    (a.updates as u128) * (b.searches as u128) < (b.updates as u128) * (a.searches as u128)
}

/// An ascending list with `r` behind all that do not have more updates.
pub open spec fn inserted(list: Seq<UpdateSearchRatio>, r: UpdateSearchRatio) -> Seq<UpdateSearchRatio>
    decreases list.len(),
{
    if list.len() == 0 {
        seq![r]
    } else if fewer_updates(r, list.last()) {
        inserted(list.drop_last(), r).push(list.last())
    } else {
        list.push(r)
    }
}

/// The ratios with updates among the first `n`, ascending; equal ones in the order in which they are
/// given.
pub open spec fn mixed_ratios(ratios: Seq<UpdateSearchRatio>, n: int) -> Seq<UpdateSearchRatio>
    decreases n,
{
    if n <= 0 {
        Seq::empty()
    } else if ratios[n - 1].updates == 0 {
        mixed_ratios(ratios, n - 1)
    } else {
        inserted(mixed_ratios(ratios, n - 1), ratios[n - 1])
    }
}

/// Whether a search without updates is among the first `n` ratios.
pub open spec fn has_pure_search(ratios: Seq<UpdateSearchRatio>, n: int) -> bool {
    exists|i: int| 0 <= i < n && (#[trigger] ratios[i]).updates == 0
}

/// The phases of a run: the search without updates first, where it is asked for, and then the ratios
/// ascending. Without any ratio there is one phase, without updates.
pub open spec fn phases_of(ratios: Seq<UpdateSearchRatio>) -> Seq<Option<UpdateSearchRatio>> {
    if ratios.len() == 0 {
        seq![None]
    } else {
        let mixed = mixed_ratios(ratios, ratios.len() as int);
        let rest = Seq::new(mixed.len(), |i: int| Some(mixed[i]));
        if has_pure_search(ratios, ratios.len() as int) {
            seq![None] + rest
        } else {
            rest
        }
    }
}

/// The ratios that the first `n` texts give, or what is wrong with the first that gives none.
pub open spec fn read_ratios(texts: Seq<String>, n: int) -> Result<
    Seq<UpdateSearchRatio>,
    Seq<char>,
>
    decreases n,
{
    if n <= 0 {
        Ok(Seq::empty())
    } else {
        match read_ratios(texts, n - 1) {
            Err(e) => Err(e),
            Ok(list) => match read_ratio(texts[n - 1]@) {
                Err(e) => Err(e),
                Ok(r) => Ok(list.push(r)),
            },
        }
    }
}

/// An error stays the error of more texts.
proof fn lemma_read_ratios_stops(texts: Seq<String>, n: int, all: int)
    requires
        0 <= n <= all,
        read_ratios(texts, n) is Err,
    ensures
        read_ratios(texts, all) == read_ratios(texts, n),
    decreases all - n,
{
    if n < all {
        lemma_read_ratios_stops(texts, n, all - 1);
    }
}

/// Where an insertion ends up.
proof fn lemma_inserted(list: Seq<UpdateSearchRatio>, r: UpdateSearchRatio, at: int)
    requires
        0 <= at <= list.len(),
        forall|k: int| at <= k < list.len() ==> fewer_updates(r, #[trigger] list[k]),
        at > 0 ==> !fewer_updates(r, list[at - 1]),
    ensures
        inserted(list, r) == list.insert(at, r),
    decreases list.len(),
{
    if at == list.len() {
        assert(list.insert(at, r) =~= list.push(r));
        if list.len() == 0 {
            assert(list.push(r) =~= seq![r]);
        }
    } else {
        let front = list.drop_last();
        assert forall|k: int| at <= k < front.len() implies fewer_updates(r, #[trigger] front[k]) by {
            assert(list[k] == front[k]);
        }
        lemma_inserted(front, r, at);
        assert(list.insert(at, r) =~= front.insert(at, r).push(list.last()));
        assert(fewer_updates(r, list[list.len() - 1]));
    }
}

/// The phases of a run, from the ratios that are asked for.
pub fn search_phases(texts: &[String]) -> (r: Result<Vec<Option<UpdateSearchRatio>>, String>)
    ensures
        match read_ratios(texts@, texts@.len() as int) {
            Err(e) => r matches Err(m) && m@ == e,
            Ok(ratios) => r matches Ok(v) && v@ == phases_of(ratios),
        },
{
    let mut phases: Vec<Option<UpdateSearchRatio>> = Vec::new();
    if texts.len() == 0 {
        phases.push(None);
        assert(phases@ =~= seq![None]);
        return Ok(phases);
    }
    let mut mixed: Vec<UpdateSearchRatio> = Vec::new();
    let mut pure: bool = false;
    let ghost mut ratios: Seq<UpdateSearchRatio> = Seq::empty();
    let mut i: usize = 0;
    while i < texts.len()
        invariant
            i <= texts@.len(),
            ratios.len() == i,
            read_ratios(texts@, i as int) == Ok::<Seq<UpdateSearchRatio>, Seq<char>>(ratios),
            mixed@ == mixed_ratios(ratios, i as int),
            pure == has_pure_search(ratios, i as int),
        decreases texts@.len() - i,
    {
        match parse_update_search_ratio(texts[i].as_str()) {
            Err(e) => {
                proof {
                    lemma_read_ratios_stops(texts@, i + 1, texts@.len() as int);
                }
                return Err(e);
            },
            Ok(ratio) => {
                let ghost before = ratios;
                proof {
                    ratios = ratios.push(ratio);
                    lemma_mixed_prefix(before, ratio, i as int);
                    assert(forall|j: int| 0 <= j < i ==> before[j] == #[trigger] ratios[j]);
                    if pure {
                        let j = choose|j: int| 0 <= j < i && (#[trigger] before[j]).updates == 0;
                        assert(ratios[j].updates == 0);
                    }
                    assert(ratios[i as int] == ratio);
                }
                if ratio.updates == 0 {
                    pure = true;
                    assert(has_pure_search(ratios, i + 1));
                } else {
                    let mut at: usize = mixed.len();
                    while at > 0 && has_fewer_updates(ratio, mixed[at - 1])
                        invariant
                            at <= mixed@.len(),
                            forall|k: int|
                                at <= k < mixed@.len() ==> fewer_updates(ratio, #[trigger] mixed@[k]),
                        decreases at,
                    {
                        at -= 1;
                    }
                    proof {
                        lemma_inserted(mixed@, ratio, at as int);
                    }
                    mixed.insert(at, ratio);
                    assert(!pure ==> !has_pure_search(ratios, i + 1)) by {
                        if !pure && has_pure_search(ratios, i + 1) {
                            let j = choose|j: int|
                                0 <= j < i + 1 && (#[trigger] ratios[j]).updates == 0;
                            assert(before[j].updates == 0);
                        }
                    }
                }
                i += 1;
            },
        }
    }
    if pure {
        phases.push(None);
    }
    let mut k: usize = 0;
    while k < mixed.len()
        invariant
            k <= mixed@.len(),
            phases@.len() == k + if pure {
                1int
            } else {
                0int
            },
            pure ==> phases@[0] is None,
            forall|j: int|
                0 <= j < k ==> phases@[j + if pure {
                    1int
                } else {
                    0int
                }] == Some(#[trigger] mixed@[j]),
        decreases mixed@.len() - k,
    {
        phases.push(Some(mixed[k]));
        k += 1;
    }
    proof {
        let rest = Seq::new(mixed@.len(), |j: int| Some(mixed@[j]));
        if pure {
            assert forall|j: int| 0 <= j < phases@.len() implies #[trigger] phases@[j] == (seq![None]
                + rest)[j] by {
                if j > 0 {
                    assert(phases@[j] == Some(mixed@[j - 1]));
                }
            }
            assert(phases@ =~= seq![None] + rest);
        } else {
            assert forall|j: int| 0 <= j < phases@.len() implies #[trigger] phases@[j] == rest[j] by {
                assert(phases@[j] == Some(mixed@[j]));
            }
            assert(phases@ =~= rest);
        }
    }
    Ok(phases)
}

/// More ratios do not change what the first ones give.
proof fn lemma_mixed_prefix(ratios: Seq<UpdateSearchRatio>, r: UpdateSearchRatio, n: int)
    requires
        0 <= n <= ratios.len(),
    ensures
        mixed_ratios(ratios.push(r), n) == mixed_ratios(ratios, n),
    decreases n,
{
    if n > 0 {
        lemma_mixed_prefix(ratios, r, n - 1);
    }
}

/// Whether no entry of a list has fewer updates than one before it.
pub open spec fn ascending(list: Seq<UpdateSearchRatio>) -> bool {
    forall|i: int, j: int|
        0 <= i < j < list.len() ==> !fewer_updates(#[trigger] list[j], #[trigger] list[i])
}

/// If `a` has no fewer than `b`, and `b` no fewer than `c`, `a` has no fewer than `c`.
proof fn lemma_order_is_transitive(a: UpdateSearchRatio, b: UpdateSearchRatio, c: UpdateSearchRatio)
    requires
        !fewer_updates(a, b),
        !fewer_updates(b, c),
        b.searches > 0,
    ensures
        !fewer_updates(a, c),
{
    let (au, a_s, bu, bs, cu, cs) = (
        a.updates as int,
        a.searches as int,
        b.updates as int,
        b.searches as int,
        c.updates as int,
        c.searches as int,
    );
    assert(au * cs >= cu * a_s) by (nonlinear_arith)
        requires
            au * bs >= bu * a_s,
            bu * cs >= cu * bs,
            bs > 0,
            a_s >= 0,
            cs >= 0,
            au >= 0,
            bu >= 0,
            cu >= 0,
    {
        assert((au * bs) * cs >= (bu * a_s) * cs);
        assert((bu * cs) * a_s >= (cu * bs) * a_s);
        assert((bu * a_s) * cs == (bu * cs) * a_s);
        assert((au * bs) * cs == (au * cs) * bs);
        assert((cu * bs) * a_s == (cu * a_s) * bs);
    }
}

/// An insertion keeps a list ascending, and adds one entry.
proof fn lemma_insertion_ascends(list: Seq<UpdateSearchRatio>, r: UpdateSearchRatio)
    requires
        ascending(list),
        r.searches > 0,
        forall|i: int| 0 <= i < list.len() ==> (#[trigger] list[i]).searches > 0,
    ensures
        ascending(inserted(list, r)),
        inserted(list, r).to_multiset() == list.to_multiset().insert(r),
        forall|i: int|
            0 <= i < inserted(list, r).len() ==> (#[trigger] inserted(list, r)[i]).searches > 0,
        forall|i: int|
            0 <= i < inserted(list, r).len() ==> (#[trigger] inserted(list, r)[i] == r
                || list.contains(inserted(list, r)[i])),
    decreases list.len(),
{
    broadcast use vstd::seq_lib::group_to_multiset_ensures;

    if list.len() == 0 {
        assert(inserted(list, r) =~= list.push(r));
    } else if fewer_updates(r, list.last()) {
        let front = list.drop_last();
        assert(list =~= front.push(list.last()));
        assert forall|i: int, j: int| 0 <= i < j < front.len() implies !fewer_updates(
            #[trigger] front[j],
            #[trigger] front[i],
        ) by {
            assert(list[i] == front[i] && list[j] == front[j]);
        }
        assert forall|i: int| 0 <= i < front.len() implies (#[trigger] front[i]).searches > 0 by {
            assert(list[i] == front[i]);
        }
        lemma_insertion_ascends(front, r);
        let sorted = inserted(front, r);
        let result = sorted.push(list.last());
        assert forall|i: int, j: int| 0 <= i < j < result.len() implies !fewer_updates(
            #[trigger] result[j],
            #[trigger] result[i],
        ) by {
            if j < sorted.len() {
                assert(!fewer_updates(sorted[j], sorted[i]));
            } else if sorted[i] == r {
                assert(!fewer_updates(list.last(), r)) by {
                    lemma_order_is_asymmetric(r, list.last());
                }
            } else {
                assert(front.contains(sorted[i]));
                let k = choose|k: int| 0 <= k < front.len() && front[k] == sorted[i];
                assert(!fewer_updates(list[list.len() - 1], list[k]));
            }
        }
        assert forall|i: int| 0 <= i < result.len() implies (#[trigger] result[i] == r
            || list.contains(result[i])) by {
            if i < sorted.len() {
                if sorted[i] != r {
                    assert(front.contains(sorted[i]));
                    let k = choose|k: int| 0 <= k < front.len() && front[k] == sorted[i];
                    assert(list[k] == result[i]);
                }
            } else {
                assert(list[list.len() - 1] == result[i]);
            }
        }
        assert(result.to_multiset() =~= list.to_multiset().insert(r));
    } else {
        let result = list.push(r);
        assert forall|i: int, j: int| 0 <= i < j < result.len() implies !fewer_updates(
            #[trigger] result[j],
            #[trigger] result[i],
        ) by {
            if j < list.len() {
                assert(!fewer_updates(list[j], list[i]));
            } else if i < list.len() - 1 {
                assert(!fewer_updates(list[list.len() - 1], list[i]));
                lemma_order_is_transitive(r, list.last(), list[i]);
            }
        }
        assert forall|i: int| 0 <= i < result.len() implies (#[trigger] result[i] == r
            || list.contains(result[i])) by {
            if i < list.len() {
                assert(list[i] == result[i]);
            }
        }
    }
}

/// If `a` has fewer than `b`, `b` does not have fewer than `a`.
proof fn lemma_order_is_asymmetric(a: UpdateSearchRatio, b: UpdateSearchRatio)
    requires
        fewer_updates(a, b),
    ensures
        !fewer_updates(b, a),
{
}

/// The ratios with updates among the first `n`, in the order in which they are given.
pub open spec fn given_mixed(ratios: Seq<UpdateSearchRatio>, n: int) -> Seq<UpdateSearchRatio>
    decreases n,
{
    if n <= 0 {
        Seq::empty()
    } else if ratios[n - 1].updates == 0 {
        given_mixed(ratios, n - 1)
    } else {
        given_mixed(ratios, n - 1).push(ratios[n - 1])
    }
}

/// The phases with updates ascend, and are the ratios that were asked for, each as often as it was.
pub proof fn phases_ascend(ratios: Seq<UpdateSearchRatio>, n: int)
    requires
        0 <= n <= ratios.len(),
        forall|i: int| 0 <= i < ratios.len() ==> (#[trigger] ratios[i]).searches > 0,
    ensures
        ascending(mixed_ratios(ratios, n)),
        mixed_ratios(ratios, n).to_multiset() == given_mixed(ratios, n).to_multiset(),
        forall|i: int|
            0 <= i < mixed_ratios(ratios, n).len() ==> (#[trigger] mixed_ratios(
                ratios,
                n,
            )[i]).searches > 0,
    decreases n,
{
    broadcast use vstd::seq_lib::group_to_multiset_ensures;

    if n > 0 {
        phases_ascend(ratios, n - 1);
        if ratios[n - 1].updates != 0 {
            lemma_insertion_ascends(mixed_ratios(ratios, n - 1), ratios[n - 1]);
        }
    }
}

/// One search of a run: the phase it is in, and the place of its parameters.
#[derive(Debug, Clone, Copy, PartialEq, Eq, Structural)]
pub struct Point {
    pub phase: Option<UpdateSearchRatio>,
    pub search_id: usize,
}

/// How many clients search at once.
pub open spec fn clients(p: SearchParams) -> u64 {
    match p.parallel {
        Some(n) => n,
        None => 1,
    }
}

/// How many clients search at once.
pub fn parallel_of(p: &SearchParams) -> (r: u64)
    ensures
        r == clients(*p),
{
    match p.parallel {
        Some(n) => n,
        None => 1,
    }
}

/// The breadth of a search, where it is set.
pub open spec fn breadth(p: SearchParams) -> Option<i64> {
    match p.search_params {
        Some(inner) => inner.ef,
        None => None,
    }
}

/// The breadth of a search, where it is set.
pub fn ef_of(p: &SearchParams) -> (r: Option<i64>)
    ensures
        r == breadth(*p),
{
    match &p.search_params {
        Some(inner) => inner.ef,
        None => None,
    }
}

/// Whether a search is made: it is asked for by its number of clients and its breadth. Without an index
/// over vectors the breadth does not matter, and one search for each number of clients is enough.
pub open spec fn is_made(params: Seq<SearchParams>, i: int, a: RunOptions) -> bool {
    let p = params[i];
    &&& a.skip_vector_index ==> (forall|j: int|
        0 <= j < i ==> clients(#[trigger] params[j]) != clients(p))
    &&& a.parallels@.len() > 0 ==> a.parallels@.contains(clients(p) as i32)
    &&& !a.skip_vector_index && a.ef_runtime@.len() > 0 ==> (breadth(p) matches Some(ef)
        ==> a.ef_runtime@.contains(ef))
}

/// The searches of one phase.
pub open spec fn phase_points(
    params: Seq<SearchParams>,
    n: int,
    a: RunOptions,
    phase: Option<UpdateSearchRatio>,
) -> Seq<Point>
    decreases n,
{
    if n <= 0 {
        Seq::empty()
    } else if is_made(params, n - 1, a) {
        phase_points(params, n - 1, a, phase).push(Point { phase, search_id: (n - 1) as usize })
    } else {
        phase_points(params, n - 1, a, phase)
    }
}

/// The searches of the first `k` phases, phase by phase. Without an index over vectors there is nothing
/// to update.
pub open spec fn all_points(
    phases: Seq<Option<UpdateSearchRatio>>,
    k: int,
    params: Seq<SearchParams>,
    a: RunOptions,
) -> Seq<Point>
    decreases k,
{
    if k <= 0 {
        Seq::empty()
    } else if a.skip_vector_index && phases[k - 1] is Some {
        all_points(phases, k - 1, params, a)
    } else {
        all_points(phases, k - 1, params, a) + phase_points(
            params,
            params.len() as int,
            a,
            phases[k - 1],
        )
    }
}

/// Whether a list holds a number.
fn holds_i32(list: &Vec<i32>, x: i32) -> (r: bool)
    ensures
        r == list@.contains(x),
{
    let mut i: usize = 0;
    while i < list.len()
        invariant
            i <= list@.len(),
            forall|j: int| 0 <= j < i ==> #[trigger] list@[j] != x,
        decreases list@.len() - i,
    {
        if list[i] == x {
            return true;
        }
        i += 1;
    }
    false
}

/// Whether a list holds a number.
fn holds_i64(list: &Vec<i64>, x: i64) -> (r: bool)
    ensures
        r == list@.contains(x),
{
    let mut i: usize = 0;
    while i < list.len()
        invariant
            i <= list@.len(),
            forall|j: int| 0 <= j < i ==> #[trigger] list@[j] != x,
        decreases list@.len() - i,
    {
        if list[i] == x {
            return true;
        }
        i += 1;
    }
    false
}

/// Whether no earlier search has the same number of clients.
fn is_first_with_its_clients(params: &[SearchParams], i: usize) -> (r: bool)
    requires
        i < params@.len(),
    ensures
        r == (forall|j: int|
            0 <= j < i ==> clients(#[trigger] params@[j]) != clients(params@[i as int])),
{
    let mine: u64 = parallel_of(&params[i]);
    let mut j: usize = 0;
    while j < i
        invariant
            j <= i < params@.len(),
            mine == clients(params@[i as int]),
            forall|k: int| 0 <= k < j ==> clients(#[trigger] params@[k]) != mine,
        decreases i - j,
    {
        if parallel_of(&params[j]) == mine {
            return false;
        }
        j += 1;
    }
    true
}

/// Whether a search is made.
fn makes_search(params: &[SearchParams], i: usize, a: &RunOptions) -> (r: bool)
    requires
        i < params@.len(),
    ensures
        r == is_made(params@, i as int, *a),
{
    if a.skip_vector_index && !is_first_with_its_clients(params, i) {
        return false;
    }
    if a.parallels.len() > 0 && !holds_i32(&a.parallels, parallel_of(&params[i]) as i32) {
        return false;
    }
    if !a.skip_vector_index && a.ef_runtime.len() > 0 {
        if let Some(ef) = ef_of(&params[i]) {
            if !holds_i64(&a.ef_runtime, ef) {
                return false;
            }
        }
    }
    true
}

/// The searches of a run, in the order in which they are made.
pub fn plan_points(phases: &[Option<UpdateSearchRatio>], params: &[SearchParams], a: &RunOptions) -> (r:
    Vec<Point>)
    ensures
        r@ == all_points(phases@, phases@.len() as int, params@, *a),
{
    let mut points: Vec<Point> = Vec::new();
    let mut k: usize = 0;
    while k < phases.len()
        invariant
            k <= phases@.len(),
            points@ == all_points(phases@, k as int, params@, *a),
        decreases phases@.len() - k,
    {
        let phase: Option<UpdateSearchRatio> = phases[k];
        if !(a.skip_vector_index && phase.is_some()) {
            let ghost before = points@;
            let mut i: usize = 0;
            assert(before + Seq::<Point>::empty() =~= before);
            while i < params.len()
                invariant
                    i <= params@.len(),
                    points@ == before + phase_points(params@, i as int, *a, phase),
                decreases params@.len() - i,
            {
                if makes_search(params, i, a) {
                    let ghost sofar = phase_points(params@, i as int, *a, phase);
                    points.push(Point { phase, search_id: i });
                    assert(points@ =~= before + sofar.push(Point { phase, search_id: i }));
                }
                i += 1;
            }
        }
        k += 1;
    }
    points
}

/// How often a search is repeated: once where it runs for a set duration, and otherwise as often as is
/// asked for, at least once.
pub open spec fn repeats(a: RunOptions) -> u64 {
    if float_bits::less64(0, a.search_duration) || a.repetitions == 0 {
        1
    } else {
        a.repetitions
    }
}

/// How often a search is repeated.
pub fn repetitions(a: &RunOptions) -> (r: u64)
    ensures
        r == repeats(*a),
        r >= 1,
{
    if below64(0, a.search_duration) || a.repetitions == 0 {
        1
    } else {
        a.repetitions
    }
}

/// What is said where repetitions are not made.
pub open spec fn repetitions_note(n: nat) -> Seq<char> {
    "note: --repetitions "@
        + text::decimal(n)
        + " ignored (using 1) in --search-duration mode"@
}

/// What is said where repetitions are not made.
fn new_repetitions_note(n: u64) -> (m: String)
    ensures
        m@ == repetitions_note(n as nat),
{
    let mut m: String = "note: --repetitions ".to_owned();
    m.append(decimal_text(n).as_str());
    m.append(" ignored (using 1) in --search-duration mode");
    m
}

/// What is said where repetitions are asked for that are not made.
pub fn ignored_repetitions(a: &RunOptions) -> (r: Option<String>)
    ensures
        float_bits::less64(0, a.search_duration) && a.repetitions > 1 ==> (r matches Some(m) && m@
            == repetitions_note(a.repetitions as nat)),
        !(float_bits::less64(0, a.search_duration) && a.repetitions > 1) ==> r is None,
{
    if below64(0, a.search_duration) && a.repetitions > 1 {
        Some(new_repetitions_note(a.repetitions))
    } else {
        None
    }
}

/// What is measured before a search, and thrown away.
#[derive(Debug, Clone, Copy, PartialEq, Eq, Structural)]
pub enum WarmUp {
    /// Requests at the set rate.
    OpenLoop,
    /// Requests one after another.
    ClosedLoop,
    Nothing,
}

/// How a run warms a server up.
pub open spec fn warm_up_of(a: RunOptions) -> WarmUp {
    if !float_bits::less64(0, a.warmup_seconds) {
        WarmUp::Nothing
    } else if float_bits::less64(0, a.target_qps) {
        WarmUp::OpenLoop
    } else if float_bits::less64(0, a.search_duration) {
        WarmUp::ClosedLoop
    } else {
        WarmUp::Nothing
    }
}

/// How a run warms a server up.
pub fn warm_up(a: &RunOptions) -> (r: WarmUp)
    ensures
        r == warm_up_of(*a),
{
    if below64(0, a.target_qps) && below64(0, a.warmup_seconds) {
        WarmUp::OpenLoop
    } else if below64(0, a.search_duration) && below64(0, a.warmup_seconds) {
        WarmUp::ClosedLoop
    } else {
        WarmUp::Nothing
    }
}

/// What repetitions are compared by: the requests that were dropped, and the bit patterns of the rate
/// and of the end-to-end tail.
#[derive(Debug, Clone, Copy, PartialEq, Eq, Structural)]
pub struct Scores {
    pub rps: u64,
    pub dropped_queries: u64,
    pub end_to_end_p95: Option<u64>,
}

/// The tail of a repetition; infinite where it was not measured.
pub open spec fn tail(s: Scores) -> u64 {
    match s.end_to_end_p95 {
        Some(t) => t,
        None => INFINITE64,
    }
}

/// Whether a repetition is better than the best before. At a set rate the rate says nothing, so the
/// one that dropped fewer requests is better, and among equals the one with the lower tail; otherwise
/// the one with the higher rate.
pub open spec fn beats(new: Scores, best: Scores, open_loop: bool) -> bool {
    if open_loop {
        new.dropped_queries < best.dropped_queries || (new.dropped_queries == best.dropped_queries
            && float_bits::less64(tail(new), tail(best)))
    } else {
        float_bits::less64(best.rps, new.rps)
    }
}

/// Whether a repetition is better than the best before.
pub fn is_better(new: Scores, best: Scores, open_loop: bool) -> (r: bool)
    ensures
        r == beats(new, best, open_loop),
{
    if open_loop {
        let new_tail: u64 = match new.end_to_end_p95 {
            Some(t) => t,
            None => INFINITE64,
        };
        let best_tail: u64 = match best.end_to_end_p95 {
            Some(t) => t,
            None => INFINITE64,
        };
        new.dropped_queries < best.dropped_queries || (new.dropped_queries == best.dropped_queries
            && below64(new_tail, best_tail))
    } else {
        below64(best.rps, new.rps)
    }
}

/// No repetition beats itself, and of two not both beat the other.
pub proof fn beating_is_strict(a: Scores, b: Scores, open_loop: bool)
    ensures
        !beats(a, a, open_loop),
        beats(a, b, open_loop) ==> !beats(b, a, open_loop),
{
}

/// The duration, the rate and the lateness that a run sets, as JSON numbers.
pub struct Timing {
    pub search_duration: Json,
    pub target_qps: Json,
    pub max_lateness_ms: Json,
    pub warmup_seconds: Json,
}

/// The parameters of the searches of a run: the duration and the rate are added where they are set.
pub fn set_timing(params: &mut SearchParams, a: &RunOptions, t: &Timing)
    ensures
        *final(params) == (SearchParams {
            duration_seconds: final(params).duration_seconds,
            target_qps: final(params).target_qps,
            max_lateness_ms: final(params).max_lateness_ms,
            ..*old(params)
        }),
        float_bits::less64(0, a.search_duration) ==> (final(params).duration_seconds matches Some(j)
            && j@ == t.search_duration@),
        !float_bits::less64(0, a.search_duration) ==> final(params).duration_seconds == old(params).duration_seconds,
        float_bits::less64(0, a.target_qps) ==> (final(params).target_qps matches Some(j) && j@
            == t.target_qps@) && (final(params).max_lateness_ms matches Some(j) && j@
            == t.max_lateness_ms@),
        !float_bits::less64(0, a.target_qps) ==> final(params).target_qps == old(params).target_qps
            && final(params).max_lateness_ms == old(params).max_lateness_ms,
{
    if below64(0, a.search_duration) {
        params.duration_seconds = Some(t.search_duration.clone());
    }
    if below64(0, a.target_qps) {
        params.target_qps = Some(t.target_qps.clone());
        params.max_lateness_ms = Some(t.max_lateness_ms.clone());
    }
}

/// The parameters of a warm-up: those of the search for as long as the server is warmed up, without a
/// rate where none is set.
pub fn set_warm_up(params: &mut SearchParams, kind: WarmUp, t: &Timing)
    requires
        kind != WarmUp::Nothing,
    ensures
        *final(params) == (SearchParams {
            duration_seconds: final(params).duration_seconds,
            target_qps: final(params).target_qps,
            ..*old(params)
        }),
        final(params).duration_seconds matches Some(j) && j@ == t.warmup_seconds@,
        kind == WarmUp::OpenLoop ==> final(params).target_qps == old(params).target_qps,
        kind == WarmUp::ClosedLoop ==> final(params).target_qps is None,
{
    params.duration_seconds = Some(t.warmup_seconds.clone());
    if kind == WarmUp::ClosedLoop {
        params.target_qps = None;
    }
}

/// Whether a limit on the time of a search is watched: it is a finite number above zero.
pub fn watches(timeout: u64) -> (r: bool)
    ensures
        r == positive(timeout),
{
    finite64(timeout) && below64(0, timeout)
}

/// How the breadth of a search is shown.
pub open spec fn shown_ef(p: SearchParams, skip_vector_index: bool) -> Seq<char> {
    if skip_vector_index {
        "n/a"@
    } else {
        match breadth(p) {
            Some(ef) => text::signed_decimal(ef as int),
            None => "default"@,
        }
    }
}

/// How the breadth of a search is shown.
pub fn effective_ef(p: &SearchParams, skip_vector_index: bool) -> (r: String)
    ensures
        r@ == shown_ef(*p, skip_vector_index),
{
    if skip_vector_index {
        return "n/a".to_owned();
    }
    match ef_of(p) {
        Some(ef) => text::signed_decimal_text(ef),
        None => "default".to_owned(),
    }
}

/// A directory without the slashes at its end.
pub open spec fn without_slashes(dir: Seq<char>) -> Seq<char>
    decreases dir.len(),
{
    if dir.len() > 0 && dir.last() == '/' {
        without_slashes(dir.drop_last())
    } else {
        dir
    }
}

/// Whether a path is a directory, given without the slashes at its end, or lies under it.
pub open spec fn lies_in(shown: Seq<char>, dir: Seq<char>) -> bool {
    &&& dir.len() <= shown.len()
    &&& shown.take(dir.len() as int) == dir
    &&& if shown.len() == dir.len() {
        dir.len() > 0
    } else {
        shown[dir.len() as int] == '/'
    }
}

/// A path with the user's home directory in it replaced by a tilde. A path outside it stays as it is.
pub open spec fn tilde_path(shown: Seq<char>, home: Option<Seq<char>>) -> Seq<char> {
    match home {
        Some(h) => if h.len() > 0 && lies_in(shown, without_slashes(h)) {
            "~"@ + shown.skip(without_slashes(h).len() as int)
        } else {
            shown
        },
        None => shown,
    }
}

/// A path with the user's home directory in it replaced by a tilde: the name of the user is not
/// published. A path outside the home directory stays as it is.
pub fn tildeify(shown: &str, home: Option<&String>) -> (r: String)
    ensures
        r@ == tilde_path(
            shown@,
            match home {
                Some(h) => Some(h@),
                None => None,
            },
        ),
{
    if let Some(h) = home {
        let dir: Vec<char> = text::chars_of(h.as_str());
        let chars: Vec<char> = text::chars_of(shown);
        if dir.len() == 0 {
            return shown.to_owned();
        }
        let mut n: usize = dir.len();
        assert(dir@.take(n as int) =~= dir@);
        while n > 0 && dir[n - 1] == '/'
            invariant
                n <= dir@.len(),
                without_slashes(dir@.take(n as int)) == without_slashes(dir@),
            decreases n,
        {
            assert(dir@.take(n as int).drop_last() =~= dir@.take(n - 1));
            n -= 1;
        }
        let ghost kept = dir@.take(n as int);
        assert(kept == without_slashes(dir@));
        if chars.len() < n || (chars.len() == n && n == 0) || (chars.len() > n && chars[n] != '/') {
            return shown.to_owned();
        }
        let mut i: usize = 0;
        while i < n
            invariant
                i <= n <= chars@.len(),
                n <= dir@.len(),
                kept == dir@.take(n as int),
                kept == without_slashes(dir@),
                chars@ == shown@,
                home matches Some(h) && h@ == dir@,
                forall|j: int| 0 <= j < i ==> #[trigger] dir@[j] == chars@[j],
            decreases n - i,
        {
            if dir[i] != chars[i] {
                assert(chars@.take(n as int)[i as int] != kept[i as int]);
                return shown.to_owned();
            }
            i += 1;
        }
        assert(chars@.take(n as int) =~= kept);
        let mut r: String = "~".to_owned();
        let rest: String = text::string_of(chars.as_slice(), n, chars.len());
        assert(chars@.subrange(n as int, chars@.len() as int) =~= chars@.skip(n as int));
        r.append(rest.as_str());
        return r;
    }
    shown.to_owned()
}

/// The facts of an invocation that change what a run measures.
pub open spec fn invocation(
    a: RunOptions,
    warmup: JsonView,
    configurations_dir: Seq<char>,
    results_dir: Seq<char>,
) -> JsonView {
    let m = json::put(json::no_members(), "host"@, JsonView::Text(a.host@));
    let m = json::put(
        m,
        "engines_file"@,
        match a.engines_file {
            Some(f) => JsonView::Text(f@),
            None => JsonView::Null,
        },
    );
    let m = json::put(m, "allow_partial_configs"@, JsonView::Bool(a.allow_partial_configs));
    let m = json::put(m, "allow_partial_corpus"@, JsonView::Bool(a.allow_partial_corpus));
    let m = json::put(m, "dump_raw_latencies"@, JsonView::Bool(a.dump_raw_latencies));
    let m = json::put(m, "exit_on_error"@, JsonView::Bool(a.exit_on_error));
    let m = json::put(m, "fail_on_dropped_queries"@, JsonView::Bool(a.fail_on_dropped_queries));
    let m = json::put(m, "keep_data"@, JsonView::Bool(a.keep_data));
    let m = json::put(m, "reset_between_configs"@, JsonView::Bool(a.reset_between_configs));
    let m = json::put(m, "skip_if_exists"@, JsonView::Bool(a.skip_if_exists));
    let m = json::put(m, "skip_search"@, JsonView::Bool(a.skip_search));
    let m = json::put(m, "skip_upload"@, JsonView::Bool(a.skip_upload));
    let m = json::put(m, "skip_vector_index"@, JsonView::Bool(a.skip_vector_index));
    let m = json::put(m, "repetitions"@, json::count_view(a.repetitions));
    let m = json::put(m, "warmup_seconds"@, warmup);
    let m = json::put(m, "configurations_dir"@, JsonView::Text(configurations_dir));
    JsonView::Object(json::put(m, "results_dir"@, JsonView::Text(results_dir)))
}

/// The facts of an invocation that change what a run measures. `warmup` is the duration of the warm-up
/// as a JSON number, and the directories are shown without the home directory of the user.
pub fn invocation_provenance(
    a: &RunOptions,
    warmup: &Json,
    configurations_dir: &str,
    results_dir: &str,
) -> (r: Json)
    ensures
        r@ == invocation(*a, warmup@, configurations_dir@, results_dir@),
{
    broadcast use json::lemma_object_view;

    let mut members: Vec<(String, Json)> = new_members();
    put_member(&mut members, "host", text_value(a.host.as_str()));
    let file: Json = match &a.engines_file {
        Some(f) => text_value(f.as_str()),
        None => Json::Null,
    };
    put_member(&mut members, "engines_file", file);
    put_member(&mut members, "allow_partial_configs", Json::Bool(a.allow_partial_configs));
    put_member(&mut members, "allow_partial_corpus", Json::Bool(a.allow_partial_corpus));
    put_member(&mut members, "dump_raw_latencies", Json::Bool(a.dump_raw_latencies));
    put_member(&mut members, "exit_on_error", Json::Bool(a.exit_on_error));
    put_member(&mut members, "fail_on_dropped_queries", Json::Bool(a.fail_on_dropped_queries));
    put_member(&mut members, "keep_data", Json::Bool(a.keep_data));
    put_member(&mut members, "reset_between_configs", Json::Bool(a.reset_between_configs));
    put_member(&mut members, "skip_if_exists", Json::Bool(a.skip_if_exists));
    put_member(&mut members, "skip_search", Json::Bool(a.skip_search));
    put_member(&mut members, "skip_upload", Json::Bool(a.skip_upload));
    put_member(&mut members, "skip_vector_index", Json::Bool(a.skip_vector_index));
    put_member(&mut members, "repetitions", count_value(a.repetitions));
    put_member(&mut members, "warmup_seconds", warmup.clone());
    put_member(&mut members, "configurations_dir", text_value(configurations_dir));
    put_member(&mut members, "results_dir", text_value(results_dir));
    Json::Object(members)
}

} // verus!
