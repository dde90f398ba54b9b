//! A search run: what is sent for each query, and what its reply amounts to.
use vstd::prelude::*;
use vstd::slice::slice_subrange;

use crate::bytes;
use crate::json::{Json, JsonView};
use crate::metrics::{self, compute_metrics, QueryMetrics};
use crate::query_filter::{self, QueryConditions, QueryFilter};
use crate::text::{self, decimal_text};
use crate::weaviate::engine::{
    self, build_grpc_request, extract_grpc_hits, plan_search, queries_to_run, query_tops,
    transport_note, ReplyMetadata, SearchPlan, SearchRequest, Transport,
};
use crate::weaviate::filters::{self, parse_weaviate_conditions};
use crate::weaviate::graphql::{self, build_graphql_body, GraphqlReply};
use crate::weaviate::grpc::{self, Filters};

verus! {

/// The filter that a query with these conditions is sent with, where it is sent with one.
pub open spec fn filter_of(conditions: Option<Json>) -> Option<JsonView> {
    if query_filter::declares_filter(conditions) {
        filters::conditions_filter(conditions->0@)
    } else {
        None
    }
}

/// Whether conditions declare a filter that cannot be searched for.
pub open spec fn is_lost(conditions: Option<Json>) -> bool {
    query_filter::declares_filter(conditions) && filters::conditions_filter(conditions->0@) is None
}

/// The message that the filter of a query is sent as, where a message can express it.
pub open spec fn message_for(conditions: Option<Json>) -> Option<grpc::FiltersView> {
    match filter_of(conditions) {
        Some(f) => grpc::message_of(f),
        None => None,
    }
}

/// How many of the first `n` queries are sent with a filter.
pub open spec fn filtered_count(conditions: Seq<Option<Json>>, n: int) -> nat
    decreases n,
{
    if n <= 0 {
        0
    } else {
        filtered_count(conditions, n - 1) + if filter_of(conditions[n - 1]) is Some {
            1nat
        } else {
            0nat
        }
    }
}

/// Whether no message can express the filter of a query.
pub open spec fn is_inexpressible(conditions: Option<Json>) -> bool {
    filter_of(conditions) is Some && message_for(conditions) is None
}

/// How many of the first `n` queries have a filter that no message can express.
pub open spec fn inexpressible_count(conditions: Seq<Option<Json>>, n: int) -> nat
    decreases n,
{
    if n <= 0 {
        0
    } else {
        inexpressible_count(conditions, n - 1) + if is_inexpressible(conditions[n - 1]) {
            1nat
        } else {
            0nat
        }
    }
}

/// How the first `n` queries are sent: by messages where there is an endpoint for them and they can
/// express every filter.
pub open spec fn transport_for(
    endpoint_available: bool,
    conditions: Seq<Option<Json>>,
    n: int,
) -> Transport {
    if endpoint_available && inexpressible_count(conditions, n) == 0 {
        Transport::Grpc
    } else {
        Transport::Graphql
    }
}

/// What is sent for the queries of a run.
pub enum Payloads {
    Grpc(Vec<SearchRequest>),
    Graphql(Vec<Vec<u8>>),
}

/// A run that is ready to be sent: how many neighbours each query asks for, what is sent for each, and
/// what is said of the transport.
pub struct PreparedSearch {
    pub tops: Vec<usize>,
    pub payloads: Payloads,
    pub note: String,
}

/// The views of the filters that the queries are sent with.
pub open spec fn filters_match(found: Seq<QueryFilter<Json>>, conditions: Seq<Option<Json>>) -> bool {
    &&& found.len() <= conditions.len()
    &&& forall|i: int|
        0 <= i < found.len() ==> match (#[trigger] found[i]).filter() {
            Some(f) => filter_of(conditions[i]) == Some(f@),
            None => filter_of(conditions[i]) is None,
        }
}

/// The counts of a plan are those of the conditions.
proof fn lemma_counts(found: Seq<QueryFilter<Json>>, conditions: Seq<Option<Json>>)
    requires
        filters_match(found, conditions),
    ensures
        engine::count_of(found, |q: QueryFilter<Json>| q.filter() is Some) == filtered_count(
            conditions,
            found.len() as int,
        ),
        engine::count_of(found, |q: QueryFilter<Json>| engine::is_untranslatable(q))
            == inexpressible_count(conditions, found.len() as int),
    decreases found.len(),
{
    if found.len() > 0 {
        let front = found.drop_last();
        assert forall|i: int| 0 <= i < front.len() implies match (#[trigger] front[i]).filter() {
            Some(f) => filter_of(conditions[i]) == Some(f@),
            None => filter_of(conditions[i]) is None,
        } by {
            assert(front[i] == found[i]);
        }
        lemma_counts(front, conditions);
        let last = found[found.len() - 1];
        assert(found.last() == last);
    }
}

/// Nothing is counted where there is nothing to count, and only there.
proof fn lemma_none_inexpressible(conditions: Seq<Option<Json>>, n: int)
    requires
        0 <= n <= conditions.len(),
    ensures
        inexpressible_count(conditions, n) == 0 <==> forall|i: int|
            0 <= i < n ==> !is_inexpressible(#[trigger] conditions[i]),
    decreases n,
{
    if n > 0 {
        lemma_none_inexpressible(conditions, n - 1);
    }
}

/// Whether `request` is what is sent for a query by a message.
pub open spec fn is_request_for(
    request: SearchRequest,
    class_name: Seq<char>,
    vector: Seq<u32>,
    top: usize,
    conditions: Option<Json>,
) -> bool {
    &&& request.collection@ == class_name
    &&& request.limit == top as u32
    &&& request.vector_bytes@ == bytes::u32s_le(vector)
    &&& request.uuid
    &&& request.distance
    &&& match request.filters {
        Some(f) => message_for(conditions) == Some(f@),
        None => message_for(conditions) is None,
    }
}

/// Whether `payloads` are what is sent for the first queries, as many as `tops` has.
pub open spec fn are_payloads_for(
    payloads: Payloads,
    class_name: Seq<char>,
    queries: Seq<Vec<u32>>,
    components: Seq<Vec<String>>,
    tops: Seq<usize>,
    conditions: Seq<Option<Json>>,
) -> bool {
    match payloads {
        Payloads::Grpc(requests) => requests@.len() == tops.len() && forall|i: int|
            0 <= i < tops.len() ==> is_request_for(
                #[trigger] requests@[i],
                class_name,
                queries[i]@,
                tops[i],
                conditions[i],
            ),
        Payloads::Graphql(bodies) => bodies@.len() == tops.len() && forall|i: int|
            0 <= i < tops.len() ==> (#[trigger] bodies@[i])@ == graphql::query_body(
                graphql::query_text(
                    class_name,
                    components[i]@,
                    tops[i] as nat,
                    filter_of(conditions[i]),
                ),
            ),
    }
}

/// The place of the first conditions from `from` on that declare a filter that cannot be searched for.
pub open spec fn first_lost(conditions: Seq<Option<Json>>, from: int) -> Option<int>
    decreases conditions.len() - from,
{
    if from >= conditions.len() {
        None
    } else if is_lost(conditions[from]) {
        Some(from)
    } else {
        first_lost(conditions, from + 1)
    }
}

/// Where the first lost filter is.
proof fn lemma_first_lost(conditions: Seq<Option<Json>>, from: int, at: int)
    requires
        0 <= from <= at <= conditions.len(),
        forall|i: int| from <= i < at ==> !is_lost(#[trigger] conditions[i]),
        at == conditions.len() || is_lost(conditions[at]),
    ensures
        first_lost(conditions, from) == if at == conditions.len() {
            None::<int>
        } else {
            Some(at)
        },
    decreases at - from,
{
    if from < at {
        lemma_first_lost(conditions, from + 1, at);
    }
}

/// Where nothing is lost, every declared filter can be searched for.
proof fn lemma_nothing_lost(conditions: Seq<Option<Json>>, from: int, i: int)
    requires
        0 <= from <= i < conditions.len(),
        first_lost(conditions, from) is None,
    ensures
        !is_lost(conditions[i]),
    decreases i - from,
{
    if from < i {
        lemma_nothing_lost(conditions, from + 1, i);
    }
}

/// Where no filter is lost, every filter that is declared can be searched for.
pub proof fn nothing_is_lost(conditions: Seq<Option<Json>>, i: int)
    requires
        0 <= i < conditions.len(),
        first_lost(conditions, 0) is None,
    ensures
        !is_lost(conditions[i]),
{
    lemma_nothing_lost(conditions, 0, i);
}

/// No query of a prepared run is sent without the filter that it declares: there is one for it, and where
/// the run goes by messages, a message expresses it.
pub proof fn no_filter_is_dropped(
    endpoint_available: bool,
    conditions: Seq<Option<Json>>,
    n: int,
    i: int,
)
    requires
        0 <= i < n <= conditions.len(),
        first_lost(conditions, 0) is None,
        query_filter::declares_filter(conditions[i]),
    ensures
        filter_of(conditions[i]) is Some,
        transport_for(endpoint_available, conditions, n) == Transport::Grpc ==> message_for(
            conditions[i],
        ) is Some,
{
    lemma_nothing_lost(conditions, 0, i);
    lemma_none_inexpressible(conditions, n);
}

/// The requests for the first queries, as many as `tops` has. `messages` are their filters.
fn new_requests(
    class_name: &str,
    queries: &[Vec<u32>],
    tops: &Vec<usize>,
    messages: Vec<Option<Filters>>,
    Ghost(conditions): Ghost<Seq<Option<Json>>>,
) -> (r: Vec<SearchRequest>)
    requires
        tops@.len() <= queries@.len(),
        messages@.len() == tops@.len(),
        forall|i: int|
            0 <= i < messages@.len() ==> match #[trigger] messages@[i] {
                Some(f) => message_for(conditions[i]) == Some(f@),
                None => message_for(conditions[i]) is None,
            },
    ensures
        r@.len() == tops@.len(),
        forall|i: int|
            0 <= i < tops@.len() ==> is_request_for(
                #[trigger] r@[i],
                class_name@,
                queries@[i]@,
                tops@[i],
                conditions[i],
            ),
{
    let mut left: Vec<Option<Filters>> = messages;
    let ghost all = messages@;
    let mut r: Vec<SearchRequest> = Vec::new();
    let mut i: usize = 0;
    while i < tops.len()
        invariant
            i <= tops@.len(),
            tops@.len() <= queries@.len(),
            all.len() == tops@.len(),
            left@.len() == all.len(),
            forall|j: int| i <= j < all.len() ==> #[trigger] left@[j] == all[j],
            forall|j: int|
                0 <= j < all.len() ==> match #[trigger] all[j] {
                    Some(f) => message_for(conditions[j]) == Some(f@),
                    None => message_for(conditions[j]) is None,
                },
            r@.len() == i,
            forall|j: int|
                0 <= j < i ==> is_request_for(
                    #[trigger] r@[j],
                    class_name@,
                    queries@[j]@,
                    tops@[j],
                    conditions[j],
                ),
        decreases tops@.len() - i,
    {
        let message: Option<Filters> = left[i].take();
        assert(message == all[i as int]);
        r.push(build_grpc_request(class_name, queries[i].as_slice(), tops[i], message));
        i += 1;
    }
    r
}

/// The bodies for the first queries, as many as `tops` has.
fn new_bodies(
    class_name: &str,
    components: &[Vec<String>],
    tops: &Vec<usize>,
    found: &Vec<QueryFilter<Json>>,
    Ghost(conditions): Ghost<Seq<Option<Json>>>,
) -> (r: Vec<Vec<u8>>)
    requires
        tops@.len() <= components@.len(),
        tops@.len() <= found@.len(),
        filters_match(found@, conditions),
    ensures
        r@.len() == tops@.len(),
        forall|i: int|
            0 <= i < tops@.len() ==> (#[trigger] r@[i])@ == graphql::query_body(
                graphql::query_text(
                    class_name@,
                    components@[i]@,
                    tops@[i] as nat,
                    filter_of(conditions[i]),
                ),
            ),
{
    let mut r: Vec<Vec<u8>> = Vec::new();
    let mut i: usize = 0;
    while i < tops.len()
        invariant
            i <= tops@.len(),
            tops@.len() <= components@.len(),
            tops@.len() <= found@.len(),
            filters_match(found@, conditions),
            r@.len() == i,
            forall|j: int|
                0 <= j < i ==> (#[trigger] r@[j])@ == graphql::query_body(
                    graphql::query_text(
                        class_name@,
                        components@[j]@,
                        tops@[j] as nat,
                        filter_of(conditions[j]),
                    ),
                ),
        decreases tops@.len() - i,
    {
        assert(match found@[i as int].filter() {
            Some(f) => filter_of(conditions[i as int]) == Some(f@),
            None => filter_of(conditions[i as int]) is None,
        });
        r.push(
            build_graphql_body(class_name, components[i].as_slice(), tops[i], found[i].as_ref()),
        );
        i += 1;
    }
    r
}

/// Prepares a run. `queries` holds the vectors as the bit patterns of their components, and `components`
/// as the texts of these. A filter that cannot be searched for stops the run, and one that a message
/// cannot express sends the whole run by GraphQL: no query runs without its filter.
pub fn prepare_search(
    class_name: &str,
    queries: &[Vec<u32>],
    components: &[Vec<String>],
    neighbours: &[Vec<i64>],
    conditions: &QueryConditions,
    explicit_top: Option<usize>,
    num_queries: i64,
    endpoint_available: bool,
) -> (r: Result<PreparedSearch, String>)
    requires
        components@.len() == queries@.len(),
        explicit_top is None ==> engine::run_size(num_queries, queries@.len()) <= neighbours@.len(),
        engine::run_size(num_queries, queries@.len()) <= conditions.conditions().len(),
    ensures
        match first_lost(conditions.conditions(), 0) {
            Some(i) => r matches Err(e) && e@ == query_filter::dropped_text(
                "Weaviate"@,
                conditions.dataset_name(),
                i as nat,
                conditions.conditions()[i]->0@,
                "it produced no condition at all"@,
            ),
            None => r matches Ok(s) && {
                let n = engine::run_size(num_queries, queries@.len());
                let all = conditions.conditions();
                let transport = transport_for(endpoint_available, all, n as int);
                &&& s.tops@.len() == n
                &&& forall|i: int|
                    0 <= i < n ==> (#[trigger] s.tops@[i]) as nat == engine::top_of(
                        explicit_top,
                        neighbours@[i]@.len(),
                    )
                &&& s.payloads is Grpc == (transport == Transport::Grpc)
                &&& are_payloads_for(
                    s.payloads,
                    class_name@,
                    queries@,
                    components@,
                    s.tops@,
                    all,
                )
                &&& s.note@ == engine::transport_text(
                    endpoint_available,
                    transport,
                    filtered_count(all, n as int),
                    inexpressible_count(all, n as int),
                    n,
                )
            },
        },
{
    let ghost all = conditions.conditions();
    let found: Vec<QueryFilter<Json>> = match conditions.resolve_all(
        "Weaviate",
        parse_weaviate_conditions,
    ) {
        Ok(f) => f,
        Err(e) => {
            proof {
                let before = choose|before: Seq<QueryFilter<Json>>| #[trigger]
                    conditions.resolved_by(parse_weaviate_conditions, before)
                        && conditions.dropped_behind(
                        "Weaviate"@,
                        parse_weaviate_conditions,
                        before,
                        e,
                    );
                assert forall|i: int| 0 <= i < before.len() implies !is_lost(#[trigger] all[i]) by {
                    let q = before[i];
                }
                lemma_first_lost(all, 0, before.len() as int);
            }
            return Err(e);
        },
    };
    proof {
        assert forall|i: int| 0 <= i < found@.len() implies match (#[trigger] found@[i]).filter() {
            Some(f) => filter_of(all[i]) == Some(f@),
            None => filter_of(all[i]) is None,
        } by {}
        assert forall|i: int| 0 <= i < all.len() implies !is_lost(#[trigger] all[i]) by {
            let q = found@[i];
        }
        lemma_first_lost(all, 0, all.len() as int);
    }
    let n: usize = queries_to_run(num_queries, queries.len());
    let tops: Vec<usize> = query_tops(explicit_top, neighbours, n);
    let executed: &[QueryFilter<Json>] = slice_subrange(found.as_slice(), 0, n);
    let plan: SearchPlan = plan_search(endpoint_available, executed);
    proof {
        assert forall|i: int| 0 <= i < executed@.len() implies match (
        #[trigger] executed@[i]).filter() {
            Some(f) => filter_of(all[i]) == Some(f@),
            None => filter_of(all[i]) is None,
        } by {
            assert(executed@[i] == found@[i]);
        }
        lemma_counts(executed@, all);
        lemma_none_inexpressible(all, n as int);
        assert forall|i: int| 0 <= i < n implies engine::is_untranslatable(executed@[i])
            == is_inexpressible(#[trigger] all[i]) by {
            let q = executed@[i];
        }
        if forall|i: int| 0 <= i < n ==> !is_inexpressible(#[trigger] all[i]) {
            assert forall|i: int| 0 <= i < executed@.len() implies !engine::is_untranslatable(
                #[trigger] executed@[i],
            ) by {
                assert(!is_inexpressible(all[i]));
            }
        } else {
            let i = choose|i: int| 0 <= i < n && is_inexpressible(#[trigger] all[i]);
            assert(engine::is_untranslatable(executed@[i]));
        }
    }
    let note: String = transport_note(endpoint_available, &plan);
    let payloads: Payloads = match plan.transport {
        Transport::Grpc => {
            proof {
                assert forall|i: int| 0 <= i < plan.grpc_filters@.len() implies match (
                #[trigger] plan.grpc_filters@[i]) {
                    Some(f) => message_for(all[i]) == Some(f@),
                    None => message_for(all[i]) is None,
                } by {
                    let q = executed@[i];
                }
            }
            Payloads::Grpc(
                new_requests(class_name, queries, &tops, plan.grpc_filters, Ghost(all)),
            )
        },
        Transport::Graphql => Payloads::Graphql(
            new_bodies(class_name, components, &tops, &found, Ghost(all)),
        ),
    };
    Ok(PreparedSearch { tops, payloads, note })
}

/// What is said of a query that failed.
pub open spec fn failure(idx: nat, e: Seq<char>) -> Seq<char> {
    "Search query "@ + text::decimal(idx) + " failed: "@ + e
}

/// What is said of a query that failed.
fn new_failure(idx: usize, e: &str) -> (r: String)
    ensures
        r@ == failure(idx as nat, e@),
{
    let mut r: String = "Search query ".to_owned();
    r.append(decimal_text(idx as u64).as_str());
    r.append(" failed: ");
    r.append(e);
    r
}

/// The row numbers of hits.
pub open spec fn rows_of<D>(hits: Seq<(i64, D)>) -> Seq<i64> {
    Seq::new(hits.len(), |i: int| hits[i].0)
}

/// The row numbers of hits.
fn list_rows<D>(hits: &Vec<(i64, D)>) -> (r: Vec<i64>)
    ensures
        r@ == rows_of(hits@),
{
    let mut r: Vec<i64> = Vec::new();
    let mut i: usize = 0;
    while i < hits.len()
        invariant
            i <= hits@.len(),
            r@.len() == i,
            forall|j: int| 0 <= j < i ==> #[trigger] r@[j] == hits@[j].0,
        decreases hits@.len() - i,
    {
        r.push(hits[i].0);
        i += 1;
    }
    assert(r@ =~= rows_of(hits@));
    r
}

/// The metrics of a query whose reply came as a message, or what is said of its failure.
pub fn judge_message(
    idx: usize,
    reply: Result<Vec<Option<ReplyMetadata>>, String>,
    neighbours: &[i64],
    top: usize,
) -> (r: Result<QueryMetrics, String>)
    ensures
        match reply {
            Err(e) => r matches Err(m) && m@ == failure(idx as nat, e@),
            Ok(results) => match engine::reply_hits(results@) {
                Err(e) => r matches Err(m) && m@ == failure(idx as nat, e),
                Ok(hits) => r matches Ok(m) && metrics::measures(
                    rows_of(hits),
                    neighbours@,
                    top as nat,
                    m,
                ),
            },
        },
{
    match reply {
        Err(e) => Err(new_failure(idx, e.as_str())),
        Ok(results) => match extract_grpc_hits(results.as_slice()) {
            Err(e) => Err(new_failure(idx, e.as_str())),
            Ok(hits) => Ok(compute_metrics(list_rows(&hits).as_slice(), neighbours, top)),
        },
    }
}

/// The metrics of a query whose reply came by GraphQL, or what is said of its failure.
pub fn judge_answer(
    idx: usize,
    reply: &Result<GraphqlReply, String>,
    class_name: &str,
    neighbours: &[i64],
    top: usize,
) -> (r: Result<QueryMetrics, String>)
    ensures
        match reply {
            Err(e) => r matches Err(m) && m@ == failure(idx as nat, e@),
            Ok(g) => match graphql::answer(g@, class_name@, graphql::errors_text(g@)) {
                Err(e) => r matches Err(m) && m@ == failure(idx as nat, e),
                Ok(hits) => r matches Ok(m) && metrics::measures(
                    rows_of(hits),
                    neighbours@,
                    top as nat,
                    m,
                ),
            },
        },
{
    match reply {
        Err(e) => Err(new_failure(idx, e.as_str())),
        Ok(g) => match g.hits(class_name) {
            Err(e) => Err(new_failure(idx, e.as_str())),
            Ok(hits) => {
                assert(rows_of(graphql::hits_view(hits@)) =~= rows_of(hits@));
                Ok(compute_metrics(list_rows(&hits).as_slice(), neighbours, top))
            },
        },
    }
}

/// Messages are used where there is an endpoint for them and none of the filters is beyond them; otherwise,
/// and without an endpoint, they are not.
pub proof fn messages_are_used_where_they_can_be(
    endpoint_available: bool,
    conditions: Seq<Option<Json>>,
    n: int,
)
    requires
        0 <= n <= conditions.len(),
    ensures
        transport_for(endpoint_available, conditions, n) == Transport::Grpc <==> endpoint_available
            && forall|i: int|
            0 <= i < n ==> (filter_of(#[trigger] conditions[i]) is None || grpc::message_of(
                filter_of(conditions[i])->Some_0,
            ) is Some),
{
    lemma_inexpressible_are_counted(conditions, n);
}

/// There is nothing to count exactly where every filter can be expressed.
proof fn lemma_inexpressible_are_counted(conditions: Seq<Option<Json>>, n: int)
    requires
        0 <= n <= conditions.len(),
    ensures
        inexpressible_count(conditions, n) == 0 <==> forall|i: int|
            0 <= i < n ==> (filter_of(#[trigger] conditions[i]) is None || grpc::message_of(
                filter_of(conditions[i])->Some_0,
            ) is Some),
    decreases n,
{
    if n > 0 {
        lemma_inexpressible_are_counted(conditions, n - 1);
        let c = conditions[n - 1];
        if filter_of(c) is Some && grpc::message_of(filter_of(c)->Some_0) is None {
            assert(!(filter_of(conditions[n - 1]) is None || grpc::message_of(
                filter_of(conditions[n - 1])->Some_0,
            ) is Some));
        }
    }
}

/// The results of a query are judged in the order of their rank.
pub proof fn results_keep_their_rank<D>(hits: Seq<(i64, D)>, i: int)
    requires
        0 <= i < hits.len(),
    ensures
        rows_of(hits).len() == hits.len(),
        rows_of(hits)[i] == hits[i].0,
{
}

/// The first query whose filter cannot be searched for is the one that is reported.
pub proof fn the_first_lost_filter_is_reported(conditions: Seq<Option<Json>>, from: int, i: int)
    requires
        0 <= from <= i < conditions.len(),
        query_filter::declares_filter(conditions[i]),
        filters::conditions_filter(conditions[i]->0@) is None,
    ensures
        first_lost(conditions, from) matches Some(k) && from <= k <= i && is_lost(conditions[k]),
    decreases conditions.len() - from,
{
    if !is_lost(conditions[from]) {
        the_first_lost_filter_is_reported(conditions, from + 1, i);
    }
}

} // verus!
