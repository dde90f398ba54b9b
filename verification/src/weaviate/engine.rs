//! The engine's settings, and how a search is planned.
use vstd::prelude::*;

use crate::bytes::{self, push_u32_le};
use crate::json::{self, new_members, Json, JsonNumber};
use crate::json::{JsonView, NumberView};
use crate::query_filter::QueryFilter;
use crate::text::{self, chars_of, decimal_text, parse_unsigned, string_of};
use crate::weaviate::grpc::{self, where_json_to_grpc_filters, Filters};
use crate::weaviate::ids::{self, uuid_to_int};

verus! {

/// The class that objects are stored in where the environment names none.
pub const DEFAULT_CLASS_NAME: &'static str = "Benchmark";

/// What the process environment says of the engine.
pub struct Environment {
    pub http_port: Option<String>,
    pub grpc_port: Option<String>,
    pub class_name: Option<String>,
    pub api_key: Option<String>,
}

/// What the configuration file says of the engine.
pub struct Settings {
    pub name: String,
    pub connection_params: Option<Json>,
    pub upload_params: Option<Json>,
    pub collection_extra: Option<Json>,
}

/// The engine: where the server is and how it is talked to.
pub struct WeaviateEngine {
    pub name: String,
    pub class_name: String,
    pub timeout: u64,
    pub batch_size: usize,
    pub parallel: usize,
    pub base_url: String,
    pub grpc_endpoint: String,
    pub api_key: Option<String>,
    pub vector_index_config: Json,
}

/// The port that a text names, or `default` where it names none.
pub open spec fn port_or(read: Option<String>, default: int) -> int {
    match read {
        Some(s) => match text::parsed_unsigned(s@) {
            Some(n) => if n <= 65535 {
                n
            } else {
                default
            },
            None => default,
        },
        None => default,
    }
}

/// Whether `s` begins with `prefix`.
pub open spec fn begins_with(s: Seq<char>, prefix: Seq<char>) -> bool {
    prefix.len() <= s.len() && s.take(prefix.len() as int) == prefix
}

/// `s` without `prefix` in front, however often it stands there.
pub open spec fn stripped(s: Seq<char>, prefix: Seq<char>) -> Seq<char>
    decreases s.len(),
{
    if prefix.len() > 0 && begins_with(s, prefix) {
        stripped(s.skip(prefix.len() as int), prefix)
    } else {
        s
    }
}

/// The part of `s` before its first colon.
pub open spec fn before_colon(s: Seq<char>) -> Seq<char>
    decreases s.len(),
{
    if s.len() == 0 || s[0] == ':' {
        Seq::empty()
    } else {
        seq![s[0]] + before_colon(s.skip(1))
    }
}

/// The host without scheme and port.
pub open spec fn bare_host(host: Seq<char>) -> Seq<char> {
    before_colon(stripped(stripped(host, "https://"@), "http://"@))
}

/// The address of the HTTP interface.
pub open spec fn base_url_of(host: Seq<char>, port: int) -> Seq<char> {
    if begins_with(host, "http"@) {
        host + ":"@ + text::decimal(port as nat)
    } else {
        "http://"@ + host + ":"@ + text::decimal(port as nat)
    }
}

/// The member under `key` of the parameters that are there.
pub open spec fn setting(params: Option<Json>, key: Seq<char>) -> Option<JsonView> {
    match params {
        Some(p) => p@.member(key),
        None => None,
    }
}

/// The whole number of a setting, or `default`.
pub open spec fn int_setting(params: Option<Json>, key: Seq<char>, default: int) -> int {
    match setting(params, key) {
        Some(v) => match v.as_int() {
            Some(n) => n,
            None => default,
        },
        None => default,
    }
}

/// The seconds that a request may take.
pub open spec fn timeout_setting(params: Option<Json>) -> u64 {
    match setting(params, "timeout_config"@) {
        Some(JsonView::Number(NumberView::PosInt(n))) => n,
        _ => 90,
    }
}

/// Whether `chars[from..]` begins with `prefix`.
fn begins_at(chars: &[char], from: usize, prefix: &[char]) -> (r: bool)
    requires
        from <= chars@.len(),
    ensures
        r == begins_with(chars@.skip(from as int), prefix@),
{
    if prefix.len() > chars.len() - from {
        return false;
    }
    let ghost s = chars@.skip(from as int);
    let len: usize = chars.len();
    let mut i: usize = 0;
    while i < prefix.len()
        invariant
            len == chars@.len(),
            i <= prefix@.len(),
            prefix@.len() <= s.len(),
            s == chars@.skip(from as int),
            from <= chars@.len(),
            forall|j: int| 0 <= j < i ==> s[j] == prefix@[j],
        decreases prefix@.len() - i,
    {
        assert(s[i as int] == chars@[from + i]);
        if chars[from + i] != prefix[i] {
            assert(s.take(prefix@.len() as int)[i as int] == s[i as int]);
            return false;
        }
        i += 1;
    }
    assert(s.take(prefix@.len() as int) =~= prefix@);
    true
}

/// Where `chars[from..]` goes on once `prefix` is taken away from its front.
fn strip_at(chars: &[char], from: usize, prefix: &[char]) -> (at: usize)
    requires
        from <= chars@.len(),
        prefix@.len() > 0,
    ensures
        from <= at <= chars@.len(),
        chars@.skip(at as int) == stripped(chars@.skip(from as int), prefix@),
{
    let len: usize = chars.len();
    let mut at: usize = from;
    while begins_at(chars, at, prefix)
        invariant
            len == chars@.len(),
            from <= at <= chars@.len(),
            prefix@.len() > 0,
            stripped(chars@.skip(at as int), prefix@) == stripped(
                chars@.skip(from as int),
                prefix@,
            ),
        ensures
            from <= at <= chars@.len(),
            !begins_with(chars@.skip(at as int), prefix@),
            stripped(chars@.skip(at as int), prefix@) == stripped(
                chars@.skip(from as int),
                prefix@,
            ),
        decreases chars@.len() - at,
    {
        assert(chars@.skip(at as int).skip(prefix@.len() as int) =~= chars@.skip(
            at + prefix@.len(),
        ));
        at += prefix.len();
    }
    at
}

/// Where the first colon of `chars[from..]` stands.
proof fn lemma_before_colon(s: Seq<char>, n: int)
    requires
        0 <= n <= s.len(),
        forall|i: int| 0 <= i < n ==> s[i] != ':',
        n == s.len() || s[n] == ':',
    ensures
        before_colon(s) == s.take(n),
    decreases s.len(),
{
    if n == 0 {
        assert(s.take(0) =~= Seq::empty());
    } else {
        lemma_before_colon(s.skip(1), n - 1);
        assert(seq![s[0]] + s.skip(1).take(n - 1) =~= s.take(n));
    }
}

/// The host without scheme and port.
fn host_only(host: &str) -> (r: String)
    ensures
        r@ == bare_host(host@),
{
    let chars: Vec<char> = chars_of(host);
    proof {
        reveal_strlit("https://");
        reveal_strlit("http://");
    }
    let https: Vec<char> = chars_of("https://");
    let http: Vec<char> = chars_of("http://");
    assert(chars@.skip(0) =~= chars@);
    let first: usize = strip_at(&chars, 0, &https);
    let from: usize = strip_at(&chars, first, &http);
    let ghost s = chars@.skip(from as int);
    let mut to: usize = from;
    while to < chars.len() && chars[to] != ':'
        invariant
            from <= to <= chars@.len(),
            s == chars@.skip(from as int),
            forall|i: int| 0 <= i < to - from ==> s[i] != ':',
        decreases chars@.len() - to,
    {
        to += 1;
    }
    proof {
        lemma_before_colon(s, to - from);
        assert(s.take(to - from) =~= chars@.subrange(from as int, to as int));
    }
    string_of(&chars, from, to)
}

/// The port that a text names, or `default` where it names none.
fn read_port(read: &Option<String>, default: u64) -> (r: u64)
    ensures
        r == port_or(*read, default as int),
{
    match read {
        Some(s) => match parse_unsigned(s.as_str(), 65535) {
            Some(n) => n,
            None => default,
        },
        None => default,
    }
}

/// The whole number of a setting, or `default`.
fn read_int(params: &Option<Json>, key: &str, default: i64) -> (r: i64)
    ensures
        r == int_setting(*params, key@, default as int),
{
    if let Some(p) = params {
        if let Some(v) = p.get(key) {
            if let Some(n) = v.as_i64() {
                return n;
            }
        }
    }
    default
}

impl WeaviateEngine {
    /// The engine that the settings, the environment and the host describe.
    pub fn new(settings: &Settings, env: &Environment, host: &str) -> (r: Self)
        ensures
            r.name@ == settings.name@,
            r.class_name@ == match env.class_name {
                Some(c) => c@,
                None => DEFAULT_CLASS_NAME@,
            },
            r.timeout == timeout_setting(settings.connection_params),
            r.parallel == int_setting(settings.upload_params, "parallel"@, 8) as usize,
            r.batch_size == int_setting(settings.upload_params, "batch_size"@, 1024) as usize,
            r.base_url@ == base_url_of(host@, port_or(env.http_port, 8080)),
            r.grpc_endpoint@ == "http://"@ + bare_host(host@) + ":"@ + text::decimal(
                port_or(env.grpc_port, 50051) as nat,
            ),
            r.api_key == env.api_key,
            r.vector_index_config@ == match setting(
                settings.collection_extra,
                "vectorIndexConfig"@,
            ) {
                Some(c) => c,
                None => JsonView::Object(json::no_members()),
            },
    {
        broadcast use json::lemma_object_view;

        let port: u64 = read_port(&env.http_port, 8080);
        let class_name: String = match &env.class_name {
            Some(c) => c.clone(),
            None => DEFAULT_CLASS_NAME.to_owned(),
        };
        let mut timeout: u64 = 90;
        if let Some(p) = &settings.connection_params {
            if let Some(Json::Number(JsonNumber::PosInt(n))) = p.get("timeout_config") {
                timeout = *n;
            }
        }
        let parallel: i64 = read_int(&settings.upload_params, "parallel", 8);
        let batch_size: i64 = read_int(&settings.upload_params, "batch_size", 1024);
        proof {
            reveal_strlit("http");
        }
        let chars: Vec<char> = chars_of(host);
        let http: Vec<char> = chars_of("http");
        assert(chars@.skip(0) =~= chars@);
        let mut base_url: String = String::new();
        if !begins_at(&chars, 0, &http) {
            base_url.append("http://");
        }
        base_url.append(host);
        base_url.append(":");
        base_url.append(decimal_text(port).as_str());
        assert(base_url@ =~= base_url_of(host@, port as int));
        let grpc_port: u64 = read_port(&env.grpc_port, 50051);
        let mut grpc_endpoint: String = "http://".to_owned();
        grpc_endpoint.append(host_only(host).as_str());
        grpc_endpoint.append(":");
        grpc_endpoint.append(decimal_text(grpc_port).as_str());
        let mut vector_index_config: Json = Json::Object(new_members());
        if let Some(e) = &settings.collection_extra {
            if let Some(c) = e.get("vectorIndexConfig") {
                vector_index_config = c.clone();
            }
        }
        let api_key: Option<String> = match &env.api_key {
            Some(k) => Some(k.clone()),
            None => None,
        };
        WeaviateEngine {
            name: settings.name.clone(),
            class_name,
            timeout,
            batch_size: #[verifier::truncate]
            (batch_size as usize),
            parallel: #[verifier::truncate]
            (parallel as usize),
            base_url,
            grpc_endpoint,
            api_key,
            vector_index_config,
        }
    }
}

/// The ranges of rows that are uploaded together: each of `batch_size` rows, but the last, which has
/// what is left.
pub open spec fn batches_of(rows: int, batch_size: int, from: int) -> Seq<(usize, usize)>
    decreases rows - from,
{
    if batch_size <= 0 || from >= rows {
        Seq::empty()
    } else if rows - from <= batch_size {
        seq![(from as usize, rows as usize)]
    } else {
        seq![(from as usize, (from + batch_size) as usize)] + batches_of(
            rows,
            batch_size,
            from + batch_size,
        )
    }
}

/// The batches of an upload cover every row once, in order.
pub proof fn batches_cover_every_row(rows: int, batch_size: int, from: int)
    requires
        0 < batch_size,
        0 <= from < rows <= usize::MAX,
    ensures
        batches_of(rows, batch_size, from).len() > 0,
        batches_of(rows, batch_size, from)[0].0 == from,
        batches_of(rows, batch_size, from).last().1 == rows,
        forall|i: int|
            0 <= i < batches_of(rows, batch_size, from).len() ==> {
                let b = #[trigger] batches_of(rows, batch_size, from)[i];
                from <= b.0 < b.1 <= rows && b.1 - b.0 <= batch_size
            },
        forall|i: int, j: int|
            0 <= i && j == i + 1 && j < batches_of(rows, batch_size, from).len()
                ==> #[trigger] batches_of(rows, batch_size, from)[i].1 == #[trigger] batches_of(
                rows,
                batch_size,
                from,
            )[j].0,
    decreases rows - from,
{
    let all = batches_of(rows, batch_size, from);
    if rows - from > batch_size {
        let rest = batches_of(rows, batch_size, from + batch_size);
        batches_cover_every_row(rows, batch_size, from + batch_size);
        assert(all.skip(1) =~= rest);
        assert(all.last() == rest.last());
        assert forall|i: int| 0 <= i < all.len() implies {
            let b = #[trigger] all[i];
            from <= b.0 < b.1 <= rows && b.1 - b.0 <= batch_size
        } by {
            if i > 0 {
                assert(all[i] == rest[i - 1]);
            }
        }
        assert forall|i: int, j: int| 0 <= i && j == i + 1 && j < all.len() implies #[trigger] all[i].1
            == #[trigger] all[j].0 by {
            assert(all[j] == rest[j - 1]);
            if i > 0 {
                assert(all[i] == rest[i - 1]);
            }
        }
    }
}

/// The ranges of rows that are uploaded together.
pub fn upload_batches(rows: usize, batch_size: usize) -> (r: Vec<(usize, usize)>)
    requires
        batch_size > 0,
    ensures
        r@ == batches_of(rows as int, batch_size as int, 0),
{
    let mut r: Vec<(usize, usize)> = Vec::new();
    let mut from: usize = 0;
    while from < rows
        invariant
            batch_size > 0,
            from <= rows,
            r@ + batches_of(rows as int, batch_size as int, from as int) == batches_of(
                rows as int,
                batch_size as int,
                0,
            ),
        decreases rows - from,
    {
        let ghost sofar = r@;
        let ghost rest = batches_of(rows as int, batch_size as int, from as int);
        let to: usize = if rows - from <= batch_size {
            rows
        } else {
            from + batch_size
        };
        r.push((from, to));
        assert(r@ + batches_of(rows as int, batch_size as int, to as int) =~= sofar + rest);
        from = to;
    }
    assert(r@ =~= batches_of(rows as int, batch_size as int, 0));
    r
}

/// The batch that a worker of an upload takes as it is the `taken`th to ask: none where all are taken, or
/// where a batch failed.
pub fn next_batch(batches: &[(usize, usize)], taken: usize, failed: bool) -> (r: Option<(usize, usize)>)
    ensures
        r == if taken < batches@.len() && !failed {
            Some(batches@[taken as int])
        } else {
            None
        },
{
    if taken < batches.len() && !failed {
        Some(batches[taken])
    } else {
        None
    }
}

/// How many queries a run sends.
pub open spec fn run_size(num_queries: i64, available: nat) -> nat {
    if num_queries > 0 && num_queries < available {
        num_queries as nat
    } else {
        available
    }
}

/// How many queries a run sends: as many as asked for, where a number is, and never more than there
/// are.
pub fn queries_to_run(num_queries: i64, available: usize) -> (n: usize)
    ensures
        n == run_size(num_queries, available as nat),
{
    if num_queries > 0 && (num_queries as u64) < (available as u64) {
        num_queries as usize
    } else {
        available
    }
}

/// How many neighbours a query asks for: the number given, else as many as its ground truth has,
/// else ten.
pub open spec fn top_of(explicit: Option<usize>, neighbours: nat) -> nat {
    match explicit {
        Some(t) => t as nat,
        None => if neighbours > 0 {
            neighbours
        } else {
            10
        },
    }
}

/// How many neighbours each of the first `n` queries asks for.
pub fn query_tops(explicit: Option<usize>, neighbours: &[Vec<i64>], n: usize) -> (r: Vec<usize>)
    requires
        explicit is None ==> n <= neighbours@.len(),
    ensures
        r@.len() == n,
        forall|i: int|
            0 <= i < n ==> (#[trigger] r@[i]) as nat == top_of(explicit, neighbours@[i]@.len()),
{
    let mut r: Vec<usize> = Vec::new();
    let mut i: usize = 0;
    while i < n
        invariant
            i <= n,
            explicit is None ==> n <= neighbours@.len(),
            r@.len() == i,
            forall|j: int|
                0 <= j < i ==> (#[trigger] r@[j]) as nat == top_of(explicit, neighbours@[j]@.len()),
        decreases n - i,
    {
        let top: usize = match explicit {
            Some(t) => t,
            None => {
                let width: usize = neighbours[i].len();
                if width > 0 {
                    width
                } else {
                    10
                }
            },
        };
        r.push(top);
        i += 1;
    }
    r
}

/// The `top` that a run is reported under: the number given, else the width of the first ground-truth
/// row, else ten where there is no row.
pub fn reported_top(explicit: Option<usize>, neighbours: &[Vec<i64>]) -> (r: usize)
    ensures
        r == match explicit {
            Some(t) => t as nat,
            None => if neighbours@.len() > 0 {
                neighbours@[0]@.len()
            } else {
                10
            },
        },
{
    match explicit {
        Some(t) => t,
        None => if neighbours.len() > 0 {
            neighbours[0].len()
        } else {
            10
        },
    }
}

/// How a search is sent.
#[derive(Debug, Clone, Copy, PartialEq, Eq, Structural)]
pub enum Transport {
    Grpc,
    Graphql,
}

/// How a run is sent: the filter messages of its queries, how many queries have a filter, and how
/// many of those a message cannot express.
pub struct SearchPlan {
    pub transport: Transport,
    pub grpc_filters: Vec<Option<Filters>>,
    pub num_filtered: usize,
    pub untranslatable: usize,
}

/// The message that a query's filter is sent as; nothing for no filter, or for one that a message
/// cannot express.
pub open spec fn filter_message(query: QueryFilter<Json>) -> Option<grpc::FiltersView> {
    match query.filter() {
        Some(f) => grpc::message_of(f@),
        None => None,
    }
}

/// Whether a query has a filter that a message cannot express.
pub open spec fn is_untranslatable(query: QueryFilter<Json>) -> bool {
    query.filter() is Some && filter_message(query) is None
}

/// How many of the queries are such that `p`.
pub open spec fn count_of(
    queries: Seq<QueryFilter<Json>>,
    p: spec_fn(QueryFilter<Json>) -> bool,
) -> nat
    decreases queries.len(),
{
    if queries.len() == 0 {
        0
    } else {
        count_of(queries.drop_last(), p) + if p(queries.last()) {
            1nat
        } else {
            0nat
        }
    }
}

/// A count is zero where nothing is counted, and only there.
proof fn lemma_count_of_zero(
    queries: Seq<QueryFilter<Json>>,
    p: spec_fn(QueryFilter<Json>) -> bool,
)
    ensures
        count_of(queries, p) == 0 <==> forall|i: int|
            0 <= i < queries.len() ==> !p(#[trigger] queries[i]),
    decreases queries.len(),
{
    if queries.len() > 0 {
        lemma_count_of_zero(queries.drop_last(), p);
        let earlier = queries.drop_last();
        if count_of(queries, p) == 0 {
            assert forall|i: int| 0 <= i < queries.len() implies !p(#[trigger] queries[i]) by {
                if i < queries.len() - 1 {
                    assert(queries[i] == earlier[i]);
                }
            }
        } else if forall|i: int| 0 <= i < queries.len() ==> !p(#[trigger] queries[i]) {
            assert forall|i: int| 0 <= i < earlier.len() implies !p(#[trigger] earlier[i]) by {
                assert(earlier[i] == queries[i]);
            }
            assert(!p(queries[queries.len() - 1]));
        }
    }
}

/// Plans how the queries are sent: by gRPC where its endpoint is there and every filter can be
/// expressed in a message; else all of them by GraphQL, so that no query runs without its filter and
/// all run on one transport.
pub fn plan_search(endpoint_available: bool, queries: &[QueryFilter<Json>]) -> (plan: SearchPlan)
    ensures
        plan.grpc_filters@.len() == queries@.len(),
        forall|i: int|
            0 <= i < queries@.len() ==> {
                let f = #[trigger] plan.grpc_filters@[i];
                (f is Some == filter_message(queries@[i]) is Some) && (f matches Some(m)
                    ==> filter_message(queries@[i]) == Some(m@))
            },
        plan.num_filtered == count_of(queries@, |q: QueryFilter<Json>| q.filter() is Some),
        plan.untranslatable == count_of(queries@, |q: QueryFilter<Json>| is_untranslatable(q)),
        plan.transport == Transport::Grpc <==> endpoint_available && forall|i: int|
            0 <= i < queries@.len() ==> !is_untranslatable(#[trigger] queries@[i]),
{
    let ghost filtered = |q: QueryFilter<Json>| q.filter() is Some;
    let ghost lost = |q: QueryFilter<Json>| is_untranslatable(q);
    let mut grpc_filters: Vec<Option<Filters>> = Vec::new();
    let mut num_filtered: usize = 0;
    let mut untranslatable: usize = 0;
    let mut i: usize = 0;
    while i < queries.len()
        invariant
            i <= queries@.len(),
            num_filtered <= i,
            untranslatable <= i,
            grpc_filters@.len() == i,
            filtered == |q: QueryFilter<Json>| q.filter() is Some,
            lost == |q: QueryFilter<Json>| is_untranslatable(q),
            num_filtered == count_of(queries@.take(i as int), filtered),
            untranslatable == count_of(queries@.take(i as int), lost),
            forall|j: int|
                0 <= j < i ==> {
                    let f = #[trigger] grpc_filters@[j];
                    (f is Some == filter_message(queries@[j]) is Some) && (f matches Some(m)
                        ==> filter_message(queries@[j]) == Some(m@))
                },
        decreases queries@.len() - i,
    {
        proof {
            assert(queries@.take(i + 1).drop_last() =~= queries@.take(i as int));
            assert(queries@.take(i + 1).last() == queries@[i as int]);
        }
        let message: Option<Filters> = match queries[i].as_ref() {
            Some(where_json) => {
                num_filtered += 1;
                let m: Option<Filters> = where_json_to_grpc_filters(where_json);
                if m.is_none() {
                    untranslatable += 1;
                }
                m
            },
            None => None,
        };
        grpc_filters.push(message);
        i += 1;
    }
    proof {
        assert(queries@.take(i as int) =~= queries@);
        lemma_count_of_zero(queries@, lost);
        assert forall|j: int| 0 <= j < queries@.len() implies lost(queries@[j])
            == is_untranslatable(#[trigger] queries@[j]) by {}
    }
    let transport: Transport = if endpoint_available && untranslatable == 0 {
        Transport::Grpc
    } else {
        Transport::Graphql
    };
    SearchPlan { transport, grpc_filters, num_filtered, untranslatable }
}

/// What is said of the transport of a run of `queries` queries.
pub open spec fn transport_text(
    endpoint_available: bool,
    transport: Transport,
    num_filtered: nat,
    untranslatable: nat,
    queries: nat,
) -> Seq<char> {
    if endpoint_available && transport != Transport::Grpc && untranslatable > 0 {
        "graphql (forced — "@ + text::decimal(untranslatable) + " of "@ + text::decimal(queries)
            + " filtered queries use a condition the gRPC proto can't express; the whole set runs on GraphQL so filter semantics stay identical across queries)"@
    } else if transport == Transport::Grpc && num_filtered > 0 {
        "grpc ("@ + text::decimal(num_filtered) + " of "@ + text::decimal(queries)
            + " queries carry a filter, translated to the gRPC Filters message)"@
    } else if transport == Transport::Grpc {
        "grpc"@
    } else {
        "graphql"@
    }
}

/// What is said of the transport of a run.
pub fn transport_note(endpoint_available: bool, plan: &SearchPlan) -> (r: String)
    ensures
        r@ == transport_text(
            endpoint_available,
            plan.transport,
            plan.num_filtered as nat,
            plan.untranslatable as nat,
            plan.grpc_filters@.len(),
        ),
{
    let queries: String = decimal_text(plan.grpc_filters.len() as u64);
    if endpoint_available && plan.transport != Transport::Grpc && plan.untranslatable > 0 {
        let mut r: String = "graphql (forced — ".to_owned();
        r.append(decimal_text(plan.untranslatable as u64).as_str());
        r.append(" of ");
        r.append(queries.as_str());
        r.append(
            " filtered queries use a condition the gRPC proto can't express; the whole set runs on GraphQL so filter semantics stay identical across queries)",
        );
        r
    } else if plan.transport == Transport::Grpc && plan.num_filtered > 0 {
        let mut r: String = "grpc (".to_owned();
        r.append(decimal_text(plan.num_filtered as u64).as_str());
        r.append(" of ");
        r.append(queries.as_str());
        r.append(" queries carry a filter, translated to the gRPC Filters message)");
        r
    } else if plan.transport == Transport::Grpc {
        "grpc".to_owned()
    } else {
        "graphql".to_owned()
    }
}

/// The search request of the gRPC interface: identifiers and distances of the `limit` objects of a
/// collection that are nearest to a vector, given as the little-endian bytes of its components.
pub struct SearchRequest {
    pub collection: String,
    pub limit: u32,
    pub vector_bytes: Vec<u8>,
    pub uuid: bool,
    pub distance: bool,
    pub filters: Option<Filters>,
}

/// The search request for one query, whose vector is given as the bit patterns of its components.
pub fn build_grpc_request(
    class_name: &str,
    query_vector: &[u32],
    top: usize,
    filter: Option<Filters>,
) -> (r: SearchRequest)
    ensures
        r.collection@ == class_name@,
        r.limit == top as u32,
        r.vector_bytes@ == bytes::u32s_le(query_vector@),
        r.uuid,
        r.distance,
        r.filters == filter,
{
    let mut vector_bytes: Vec<u8> = Vec::new();
    let mut i: usize = 0;
    assert(vector_bytes@ =~= bytes::u32s_le(query_vector@.take(0)));
    while i < query_vector.len()
        invariant
            i <= query_vector@.len(),
            vector_bytes@ == bytes::u32s_le(query_vector@.take(i as int)),
        decreases query_vector@.len() - i,
    {
        proof {
            assert(query_vector@.take(i + 1).drop_last() =~= query_vector@.take(i as int));
        }
        push_u32_le(&mut vector_bytes, query_vector[i]);
        i += 1;
    }
    assert(query_vector@.take(i as int) =~= query_vector@);
    SearchRequest {
        collection: class_name.to_owned(),
        limit: #[verifier::truncate]
        (top as u32),
        vector_bytes,
        uuid: true,
        distance: true,
        filters: filter,
    }
}

/// What the reply says of one object: its identifier, and the bit pattern of its distance.
pub struct ReplyMetadata {
    pub id: String,
    pub distance: u32,
}

/// The row numbers and distances of the objects of a reply that say who they are, or what is wrong
/// with the first that does not.
pub open spec fn reply_hits(results: Seq<Option<ReplyMetadata>>) -> Result<
    Seq<(i64, u32)>,
    Seq<char>,
>
    decreases results.len(),
{
    if results.len() == 0 {
        Ok(Seq::empty())
    } else {
        match (reply_hits(results.drop_last()), results.last()) {
            (Ok(earlier), Some(m)) => match ids::read_id(ids::uuid_value(m.id@), m.id@) {
                Ok(row) => Ok(earlier.push((row, m.distance))),
                Err(e) => Err(e),
            },
            (earlier, _) => earlier,
        }
    }
}

/// An error among the first objects is the error of the whole reply.
proof fn lemma_reply_hits_prefix(results: Seq<Option<ReplyMetadata>>, n: int)
    requires
        0 <= n <= results.len(),
        reply_hits(results.take(n)) is Err,
    ensures
        reply_hits(results) == reply_hits(results.take(n)),
    decreases results.len() - n,
{
    if n < results.len() {
        assert(results.take(n + 1).drop_last() =~= results.take(n));
        lemma_reply_hits_prefix(results, n + 1);
    } else {
        assert(results.take(n) =~= results);
    }
}

/// The row numbers and distances of the objects of a reply, in order.
pub fn extract_grpc_hits(results: &[Option<ReplyMetadata>]) -> (r: Result<Vec<(i64, u32)>, String>)
    ensures
        r is Ok == reply_hits(results@) is Ok,
        r matches Ok(hits) ==> reply_hits(results@)->Ok_0 == hits@,
        r matches Err(e) ==> reply_hits(results@)->Err_0 == e@,
{
    let mut hits: Vec<(i64, u32)> = Vec::new();
    let mut i: usize = 0;
    assert(hits@ =~= Seq::empty());
    while i < results.len()
        invariant
            i <= results@.len(),
            reply_hits(results@.take(i as int)) matches Ok(found) && found == hits@,
        decreases results@.len() - i,
    {
        proof {
            assert(results@.take(i + 1).drop_last() =~= results@.take(i as int));
            assert(results@.take(i + 1).last() == results@[i as int]);
        }
        if let Some(m) = &results[i] {
            match uuid_to_int(m.id.as_str()) {
                Ok(row) => {
                    hits.push((row, m.distance));
                },
                Err(e) => {
                    proof {
                        lemma_reply_hits_prefix(results@, i + 1);
                    }
                    return Err(e);
                },
            }
        }
        i += 1;
    }
    assert(results@.take(i as int) =~= results@);
    Ok(hits)
}

} // verus!
