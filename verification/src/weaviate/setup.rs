//! What the setup of the engine promises: where it finds the server, and what it takes from its settings.
use vstd::prelude::*;

use crate::json::{Json, JsonView, NumberView};
use crate::query_filter::QueryFilter;
use crate::text;
use crate::weaviate::engine;
use crate::weaviate::graphql;
use crate::weaviate::grpc;
use crate::weaviate::http;

verus! {

/// What stands before the first colon of a text is what was put there.
proof fn lemma_before_colon(h: Seq<char>, rest: Seq<char>)
    requires
        !h.contains(':'),
        rest.len() > 0 ==> rest[0] == ':',
    ensures
        engine::before_colon(h + rest) == h,
    decreases h.len(),
{
    let s = h + rest;
    if h.len() == 0 {
        assert(h =~= Seq::empty());
        assert(s =~= rest);
    } else {
        let tail = h.skip(1);
        if tail.contains(':') {
            let k = choose|k: int| 0 <= k < tail.len() && tail[k] == ':';
            assert(h[k + 1] == ':');
        }
        assert(h.contains(h[0]));
        lemma_before_colon(tail, rest);
        assert(s.skip(1) =~= tail + rest);
        assert(seq![h[0]] + tail =~= h);
    }
}

/// A text that does not begin with a prefix keeps its front, and one that does once loses it once.
proof fn lemma_stripped(s: Seq<char>, prefix: Seq<char>)
    requires
        prefix.len() > 0,
        !engine::begins_with(s, prefix),
    ensures
        engine::stripped(s, prefix) == s,
        engine::stripped(prefix + s, prefix) == s,
{
    assert((prefix + s).take(prefix.len() as int) =~= prefix);
    assert((prefix + s).skip(prefix.len() as int) =~= s);
}

/// A host without a colon does not begin with a scheme.
proof fn lemma_no_scheme(h: Seq<char>, rest: Seq<char>)
    requires
        !h.contains(':'),
        rest.len() > 0 ==> rest[0] == ':' && (rest.len() == 1 || rest[1] != '/'),
    ensures
        !engine::begins_with(h + rest, "http://"@),
        !engine::begins_with(h + rest, "https://"@),
{
    reveal_strlit("http://");
    reveal_strlit("https://");
    let s = h + rest;
    if engine::begins_with(s, "http://"@) {
        assert(s.take(7)[4] == ':' && s.take(7)[5] == '/');
        assert(s[4] == ':' && s[5] == '/');
        if h.len() > 4 {
            assert(h[4] == ':');
        } else if h.len() == 4 {
            assert(rest[1] == '/');
        } else {
            let k = h.len() as int;
            assert(s.take(7)[k] == s[k] && s[k] == rest[0]);
            assert("http://"@[k] != ':');
        }
    }
    if engine::begins_with(s, "https://"@) {
        assert(s.take(8)[5] == ':' && s.take(8)[6] == '/');
        assert(s[5] == ':' && s[6] == '/');
        if h.len() > 5 {
            assert(h[5] == ':');
        } else if h.len() == 5 {
            assert(rest[1] == '/');
        } else {
            let k = h.len() as int;
            assert(s.take(8)[k] == s[k] && s[k] == rest[0]);
            assert("https://"@[k] != ':');
        }
    }
}

/// A host is found whatever stands around its name: without a scheme, with either scheme, and with a port
/// behind it or none.
pub proof fn hosts_are_found_by_their_names(host: Seq<char>, port: Seq<char>)
    requires
        !host.contains(':'),
        port.len() > 0 ==> port[0] == ':' && (port.len() == 1 || port[1] != '/'),
    ensures
        engine::bare_host(host + port) == host,
        engine::bare_host("http://"@ + (host + port)) == host,
        engine::bare_host("https://"@ + (host + port)) == host,
{
    let s = host + port;
    reveal_strlit("http://");
    reveal_strlit("https://");
    lemma_no_scheme(host, port);
    lemma_before_colon(host, port);
    lemma_stripped(s, "https://"@);
    lemma_stripped(s, "http://"@);
    let schemed = "http://"@ + s;
    assert(!engine::begins_with(schemed, "https://"@)) by {
        if engine::begins_with(schemed, "https://"@) {
            assert(schemed.take(8)[4] == schemed[4]);
            assert(schemed[4] == ':');
        }
    }
    lemma_stripped(schemed, "https://"@);
}

/// A port that is written as a number is that number, and where none is the default stands.
pub proof fn ports_are_read_as_they_are_written(read: String, port: u16, default: int)
    requires
        read@ == text::decimal(port as nat),
    ensures
        engine::port_or(Some(read), default) == port,
        engine::port_or(None, default) == default,
{
    text::decimal_reads_back(port as nat);
}

/// The address of a server is its host with the port behind it; a scheme is put before a host without one.
pub proof fn addresses_have_a_scheme_and_the_port(host: Seq<char>, port: u16)
    ensures
        engine::begins_with(host, "http"@) ==> engine::base_url_of(host, port as int) == host
            + seq![':'] + text::decimal(port as nat),
        !engine::begins_with(host, "http"@) ==> engine::base_url_of(host, port as int) == "http://"@
            + host + seq![':'] + text::decimal(port as nat),
{
    reveal_strlit(":");
    assert(":"@ =~= seq![':']);
}

/// A setting that is a whole number is taken as it is; one that is missing or no whole number leaves the
/// default.
pub proof fn settings_are_taken_as_they_are(params: Json, key: Seq<char>, n: int, default: int)
    ensures
        params@.member(key) matches Some(v) && v.as_int() == Some(n) ==> engine::int_setting(
            Some(params),
            key,
            default,
        ) == n,
        params@.member(key) is None ==> engine::int_setting(Some(params), key, default) == default,
        engine::int_setting(None, key, default) == default,
{
}

/// The places of the queries of which something holds.
pub open spec fn places_where(
    queries: Seq<QueryFilter<Json>>,
    p: spec_fn(QueryFilter<Json>) -> bool,
) -> Set<int> {
    Set::new(|i: int| 0 <= i < queries.len() && p(queries[i]))
}

/// Every query of which something holds is counted, once, and no other.
pub proof fn every_such_query_is_counted(
    queries: Seq<QueryFilter<Json>>,
    p: spec_fn(QueryFilter<Json>) -> bool,
)
    ensures
        places_where(queries, p).finite(),
        engine::count_of(queries, p) == places_where(queries, p).len(),
    decreases queries.len(),
{
    let now = places_where(queries, p);
    if queries.len() == 0 {
        assert(now =~= Set::empty());
    } else {
        let front = queries.drop_last();
        every_such_query_is_counted(front, p);
        let earlier = places_where(front, p);
        let last = queries.len() - 1;
        assert forall|i: int| 0 <= i < last implies #[trigger] queries[i] == front[i] by {}
        if p(queries.last()) {
            assert(now =~= earlier.insert(last));
        } else {
            assert(now =~= earlier);
        }
    }
}

/// A query asks for as many neighbours as are set, else for as many as its ground truth has, and for ten where
/// it has none.
pub proof fn queries_ask_for_what_can_be_found(top: usize, neighbours: nat)
    ensures
        engine::top_of(Some(top), neighbours) == top,
        neighbours > 0 ==> engine::top_of(None, neighbours) == neighbours,
        engine::top_of(None, 0) == 10,
{
}

/// A filter that no message expresses is told from one that a message does and from none: a query with it is
/// never sent without it.
pub proof fn filters_without_a_message_are_told(query: QueryFilter<Json>)
    ensures
        query.filter() is None ==> !engine::is_untranslatable(query) && engine::filter_message(query)
            is None,
        query.filter() matches Some(f) ==> (engine::is_untranslatable(query) <==> grpc::message_of(f@)
            is None) && engine::filter_message(query) == grpc::message_of(f@),
{
}

/// A reply that lists an error gives no hits, whatever else it lists; one that lists none gives the hits of
/// the objects of its class, or an error where it lists no objects for it.
pub proof fn replies_with_errors_give_no_hits(
    reply: JsonView,
    class_name: Seq<char>,
    shown: Seq<char>,
    errors: Seq<JsonView>,
    objects: Seq<JsonView>,
)
    ensures
        reply.member("errors"@) == Some(JsonView::Array(errors)) && errors.len() > 0 ==> (
        graphql::answer(reply, class_name, shown) matches Err(m) && text::holds_text(m, shown)),
        reply.member("errors"@) is None && (reply.member("data"@) matches Some(data) && (data.member(
            "Get"@,
        ) matches Some(got) && got.member(class_name) == Some(JsonView::Array(objects))))
            ==> graphql::answer(reply, class_name, shown) == graphql::object_hits(objects),
        reply.member("errors"@) is None && reply.member("data"@) is None ==> graphql::answer(
            reply,
            class_name,
            shown,
        ) is Err,
{
    let intro = "GraphQL errors: "@;
    assert(intro + shown =~= intro + shown + Seq::empty());
    text::a_text_holds_its_parts(intro, shown, Seq::empty());
}

/// The time that a request may take is the one that is set, where it is a whole number that is not negative,
/// and else a minute and a half.
pub proof fn requests_take_as_long_as_set(params: Json, n: u64)
    ensures
        params@.member("timeout_config"@) == Some(JsonView::Number(NumberView::PosInt(n)))
            ==> engine::timeout_setting(Some(params)) == n,
        params@.member("timeout_config"@) is None ==> engine::timeout_setting(Some(params)) == 90,
        engine::timeout_setting(None) == 90,
{
}

/// A status is one of success where it is between two and three hundred.
pub proof fn success_is_told_by_the_status(code: u16)
    ensures
        http::succeeds(code) <==> code / 100 == 2,
{
}

} // verus!
