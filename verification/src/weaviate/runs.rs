//! What a search run sends for its queries and makes of its replies.
use vstd::prelude::*;

use crate::bytes;
use crate::json::{self, Json, JsonView, NumberView};
use crate::json_text;
use crate::query_filter;
use crate::text;
use crate::weaviate::engine::{self, ReplyMetadata, Transport};
use crate::weaviate::filters;
use crate::weaviate::graphql;
use crate::weaviate::grpc;
use crate::weaviate::ids;
use crate::weaviate::meaning::{self, Thing};
use crate::weaviate::search::{self, Payloads};

verus! {

/// Conditions declare no filter exactly where they are missing, `null` or an empty object; conditions that
/// ask for something always declare one.
pub proof fn what_is_asked_for_is_declared(conditions: Option<Json>)
    ensures
        query_filter::declares_filter(conditions) <==> conditions is Some && !(
        conditions->0@ is Null) && !(conditions->0@ matches JsonView::Object(members)
            && members.len() == 0),
        conditions is Some && meaning::says(conditions->0@) ==> query_filter::declares_filter(
            conditions,
        ),
{
}

/// The filter of a query that declares one asks for what its conditions ask for.
proof fn lemma_filter(conditions: Option<Json>, t: Thing)
    requires
        !search::is_lost(conditions),
    ensures
        search::filter_of(conditions) is Some <==> query_filter::declares_filter(conditions),
        search::filter_of(conditions) matches Some(f) ==> (meaning::passes(t, f) <==> meaning::holds(
            t,
            conditions->0@,
        )) && meaning::readable(f),
{
    if query_filter::declares_filter(conditions) {
        meaning::filters_let_through_what_is_asked_for(conditions->0@, t);
    }
}

/// Every query of a run by messages is sent as itself: to the class, for as many objects as it asks for,
/// with its own vector, and with a filter exactly where it declares one, which lets an object through
/// exactly where the object is what the query's conditions ask for.
pub proof fn every_message_asks_what_its_query_asks(
    payloads: Payloads,
    class_name: Seq<char>,
    queries: Seq<Vec<u32>>,
    components: Seq<Vec<String>>,
    tops: Seq<usize>,
    conditions: Seq<Option<Json>>,
    endpoint_available: bool,
    i: int,
    t: Thing,
)
    requires
        search::are_payloads_for(payloads, class_name, queries, components, tops, conditions),
        payloads is Grpc,
        search::transport_for(endpoint_available, conditions, tops.len() as int) == Transport::Grpc,
        search::first_lost(conditions, 0) is None,
        tops.len() <= conditions.len(),
        0 <= i < tops.len(),
    ensures
        payloads->Grpc_0@.len() == tops.len(),
        ({
            let request = payloads->Grpc_0@[i];
            &&& request.collection@ == class_name
            &&& tops[i] <= u32::MAX ==> request.limit == tops[i]
            &&& request.vector_bytes@.len() == 4 * queries[i]@.len()
            &&& bytes::u32s_at(request.vector_bytes@, 0, queries[i]@.len() as int) == queries[i]@
            &&& request.uuid && request.distance
            &&& request.filters is Some <==> query_filter::declares_filter(conditions[i])
            &&& request.filters matches Some(f) ==> (meaning::message_passes(t, f@)
                <==> meaning::holds(t, conditions[i]->0@))
        }),
{
    let request = payloads->Grpc_0@[i];
    assert(search::is_request_for(request, class_name, queries[i]@, tops[i], conditions[i]));
    search::nothing_is_lost(conditions, i);
    lemma_filter(conditions[i], t);
    bytes::lemma_u32s_le_len(queries[i]@);
    let n = 4 * queries[i]@.len();
    assert(request.vector_bytes@.subrange(0, n as int) =~= request.vector_bytes@);
    bytes::lemma_u32s_read_back(queries[i]@, request.vector_bytes@, 0);
    if query_filter::declares_filter(conditions[i]) {
        search::no_filter_is_dropped(endpoint_available, conditions, tops.len() as int, i);
        meaning::messages_let_through_what_is_asked_for(conditions[i]->0@, t);
    }
}

/// Every query of a run by GraphQL is sent as itself: to the class, for as many objects as it asks for,
/// with the components of its own vector, and with a where-argument exactly where it declares a filter. The
/// argument writes a filter that lets an object through exactly where the object is what the query's
/// conditions ask for.
pub proof fn every_body_asks_what_its_query_asks(
    payloads: Payloads,
    class_name: Seq<char>,
    queries: Seq<Vec<u32>>,
    components: Seq<Vec<String>>,
    tops: Seq<usize>,
    conditions: Seq<Option<Json>>,
    i: int,
    t: Thing,
) -> (filter: Option<JsonView>)
    requires
        search::are_payloads_for(payloads, class_name, queries, components, tops, conditions),
        payloads is Graphql,
        search::first_lost(conditions, 0) is None,
        tops.len() <= conditions.len(),
        0 <= i < tops.len(),
    ensures
        payloads->Graphql_0@.len() == tops.len(),
        payloads->Graphql_0@[i]@ == graphql::query_body(
            graphql::query_text(class_name, components[i]@, tops[i] as nat, filter),
        ),
        filter is Some <==> query_filter::declares_filter(conditions[i]),
        filter matches Some(f) ==> (meaning::passes(t, f) <==> meaning::holds(
            t,
            conditions[i]->0@,
        )),
{
    assert(payloads->Graphql_0@[i]@ == payloads->Graphql_0@[i]@);
    search::nothing_is_lost(conditions, i);
    lemma_filter(conditions[i], t);
    search::filter_of(conditions[i])
}

/// A query names the class, lists the components of its vector in order, asks for as many objects as
/// `top` says, and has the where-argument of its filter and none without one.
pub proof fn queries_say_what_is_searched_for(
    class_name: Seq<char>,
    components: Seq<String>,
    top: nat,
    filter: Option<JsonView>,
) -> (parts: (Seq<char>, Seq<char>))
    ensures
        graphql::query_text(class_name, components, top, filter) == "{\n            Get {\n                "@
            + class_name + "(\n                    nearVector: { vector: ["@ + text::joined(
            text::texts_view(components),
            ", "@,
        ) + "] },\n                    limit: "@ + text::decimal(top) + "\n                    "@
            + parts.0 + parts.1,
        filter is None ==> parts.0.len() == 0,
        filter matches Some(f) ==> parts.0 == ", where: "@ + graphql::literal(f),
        parts.1
            == "\n                ) {\n                    _additional {\n                        id\n                        distance\n                    }\n                }\n            }\n        }"@,
{
    lemma_listed(components);
    let rest = "\n                ) {\n                    _additional {\n                        id\n                        distance\n                    }\n                }\n            }\n        }"@;
    (graphql::where_argument(filter), rest)
}

/// The components of a vector stand with commas between them.
proof fn lemma_listed(texts: Seq<String>)
    ensures
        graphql::listed_texts(texts) == text::joined(text::texts_view(texts), ", "@),
    decreases texts.len(),
{
    let views = text::texts_view(texts);
    if texts.len() > 1 {
        lemma_listed(texts.drop_last());
        assert(text::texts_view(texts.drop_last()) =~= views.drop_last());
        assert(views.last() == texts.last()@);
    }
}

/// The literals of values.
pub open spec fn literals(values: Seq<JsonView>) -> Seq<Seq<char>> {
    Seq::new(values.len(), |i: int| graphql::literal(values[i]))
}

/// The items of an array stand with commas between them.
proof fn lemma_items(items: Seq<JsonView>)
    ensures
        graphql::items_literal(items) == text::joined(literals(items), ", "@),
    decreases items.len(),
{
    if items.len() > 1 {
        lemma_items(items.drop_last());
        assert(literals(items.drop_last()) =~= literals(items).drop_last());
        assert(literals(items).last() == graphql::literal(items.last()));
    }
}

/// The last of several members stands behind the others.
proof fn lemma_members(front: Seq<(Seq<char>, JsonView)>, key: Seq<char>, value: JsonView)
    ensures
        graphql::members_literal(seq![(key, value)]) == key + ": "@ + graphql::member_value_literal(
            key,
            value,
        ),
        front.len() > 0 ==> graphql::members_literal(front.push((key, value)))
            == graphql::members_literal(front) + ", "@ + (key + ": "@ + graphql::member_value_literal(
            key,
            value,
        )),
{
    let one = seq![(key, value)];
    assert(one.len() == 1 && one[0] == (key, value));
    let all = front.push((key, value));
    assert(all.drop_last() =~= front);
    assert(all.last() == (key, value));
}

/// A comparison is written with its operator, its property and its value, the operator without quotes and
/// the property in them.
pub proof fn comparisons_are_written_out(
    field: Seq<char>,
    operator: Seq<char>,
    key: Seq<char>,
    value: JsonView,
)
    requires
        key == "valueText"@ || key == "valueInt"@ || key == "valueNumber"@ || key == "valueBoolean"@ || key
            == "valueGeoRange"@,
    ensures
        graphql::literal(filters::leaf(field, operator, key, value)) == "{"@ + ("operator"@ + ": "@
            + operator + ", "@ + ("path"@ + ": "@ + ("["@ + json_text::quoted_text(field) + "]"@)) + ", "@
            + (key + ": "@ + graphql::literal(value))) + "}"@,
{
    reveal_strlit("path");
    reveal_strlit("operator");
    reveal_strlit("valueText");
    reveal_strlit("valueInt");
    reveal_strlit("valueNumber");
    reveal_strlit("valueBoolean");
    reveal_strlit("valueGeoRange");
    assert("path"@[0] == 'p' && "operator"@[0] == 'o' && key[0] == 'v');
    assert("path"@.len() == 4 && "operator"@.len() == 8 && key.len() > 0);
    let path = JsonView::Array(seq![JsonView::Text(field)]);
    let none = json::no_members();
    let one = json::put(none, "path"@, path);
    let two = json::put(one, "operator"@, JsonView::Text(operator));
    let three = json::put(two, key, value);
    assert(one =~= seq![("path"@, path)]);
    assert(text::text_less("operator"@, "path"@));
    assert(two =~= seq![("operator"@, JsonView::Text(operator)), ("path"@, path)]);
    assert(!text::text_less(key, "operator"@));
    assert(!text::text_less(key, "path"@));
    assert(two.skip(1) =~= one);
    assert(one.skip(1) =~= none);
    assert(json::put(none, key, value) == seq![(key, value)]);
    assert(json::put(one, key, value) =~= seq![("path"@, path), (key, value)]);
    assert(three =~= seq![("operator"@, JsonView::Text(operator)), ("path"@, path), (key, value)]);
    assert(graphql::literal(path) == "["@ + json_text::quoted_text(field) + "]"@) by {
        assert(graphql::items_literal(seq![JsonView::Text(field)]) == graphql::literal(
            JsonView::Text(field),
        ));
    }
    let zero: Seq<(Seq<char>, JsonView)> = seq![("operator"@, JsonView::Text(operator))];
    lemma_members(zero, "operator"@, JsonView::Text(operator));
    lemma_members(zero, "path"@, path);
    assert(two =~= zero.push(("path"@, path)));
    lemma_members(two, key, value);
    assert(three =~= two.push((key, value)));
    assert(graphql::member_value_literal("operator"@, JsonView::Text(operator)) == operator);
    assert("path"@ != "operator"@);
    assert(graphql::member_value_literal("path"@, path) == graphql::literal(path));
    assert(key != "operator"@);
    assert(graphql::member_value_literal(key, value) == graphql::literal(value));
    assert(filters::leaf(field, operator, key, value) == JsonView::Object(three));
    assert(graphql::members_literal(three) =~= "operator"@ + ": "@ + operator + ", "@ + ("path"@
        + ": "@ + ("["@ + json_text::quoted_text(field) + "]"@)) + ", "@ + (key + ": "@
        + graphql::literal(value)));
}

/// A group is written with its operands in order, each as it is written by itself, and its operator without
/// quotes.
pub proof fn groups_are_written_out(operator: Seq<char>, operands: Seq<JsonView>)
    ensures
        graphql::literal(filters::group(operator, operands)) == "{"@ + ("operands"@ + ": "@ + ("["@
            + text::joined(literals(operands), ", "@) + "]"@) + ", "@ + ("operator"@ + ": "@ + operator))
            + "}"@,
{
    reveal_strlit("operator");
    reveal_strlit("operands");
    lemma_items(operands);
    let list = JsonView::Array(operands);
    let none = json::no_members();
    let one = json::put(none, "operator"@, JsonView::Text(operator));
    let two = json::put(one, "operands"@, list);
    assert("operator"@.len() == 8 && "operands"@.len() == 8);
    assert("operands"@[5] == 'n' && "operator"@[5] == 't');
    assert(text::text_less("operands"@, "operator"@)) by {
        reveal_with_fuel(text::text_less, 7);
        assert("operands"@[0] == 'o' && "operator"@[0] == 'o');
        assert("operands"@[1] == 'p' && "operator"@[1] == 'p');
        assert("operands"@[2] == 'e' && "operator"@[2] == 'e');
        assert("operands"@[3] == 'r' && "operator"@[3] == 'r');
        assert("operands"@[4] == 'a' && "operator"@[4] == 'a');
    }
    assert(one =~= seq![("operator"@, JsonView::Text(operator))]);
    assert(two =~= seq![("operands"@, list), ("operator"@, JsonView::Text(operator))]);
    let zero: Seq<(Seq<char>, JsonView)> = seq![("operands"@, list)];
    lemma_members(zero, "operands"@, list);
    lemma_members(zero, "operator"@, JsonView::Text(operator));
    assert(two =~= zero.push(("operator"@, JsonView::Text(operator))));
    assert(graphql::member_value_literal("operator"@, JsonView::Text(operator)) == operator);
    assert("operands"@ != "operator"@);
    assert(graphql::member_value_literal("operands"@, list) == graphql::literal(list));
    assert(filters::group(operator, operands) == JsonView::Object(two));
}

/// A run sends as many queries as are asked for and there are, all of them where no number is asked for.
pub proof fn a_run_is_as_large_as_asked(num_queries: i64, available: nat)
    ensures
        engine::run_size(num_queries, available) <= available,
        num_queries <= 0 ==> engine::run_size(num_queries, available) == available,
        num_queries > 0 ==> engine::run_size(num_queries, available) == vstd::math::min(
            num_queries as int,
            available as int,
        ),
{
}

/// The hits of a GraphQL reply are those of its objects, in their order: the row that an object's
/// identifier stands for, and the distance that it has, zero where it has none. The first object without an
/// identifier is the error.
pub proof fn hits_come_from_their_objects(objects: Seq<JsonView>)
    ensures
        match graphql::object_hits(objects) {
            Ok(hits) => hits.len() == objects.len() && forall|i: int|
                0 <= i < objects.len() ==> is_hit(#[trigger] objects[i], hits[i]),
            Err(_) => exists|i: int|
                0 <= i < objects.len() && !is_identified(#[trigger] objects[i]),
        },
    decreases objects.len(),
{
    if objects.len() > 0 {
        let front = objects.drop_last();
        let n = front.len() as int;
        hits_come_from_their_objects(front);
        assert forall|i: int| 0 <= i < n implies #[trigger] objects[i] == front[i] by {}
        match graphql::object_hits(front) {
            Ok(earlier) => {
                if let Ok(hits) = graphql::object_hits(objects) {
                    assert forall|i: int| 0 <= i < objects.len() implies is_hit(
                        #[trigger] objects[i],
                        hits[i],
                    ) by {
                        if i < n {
                            assert(is_hit(front[i], earlier[i]));
                        }
                    }
                } else {
                    assert(!is_identified(objects[n]));
                }
            },
            Err(_) => {
                let i = choose|i: int|
                    0 <= i < front.len() && !is_identified(#[trigger] front[i]);
                assert(objects[i] == front[i]);
            },
        }
    }
}

/// Whether an object of a reply has an identifier.
pub open spec fn is_identified(object: JsonView) -> bool {
    &&& object.member("_additional"@) matches Some(additional)
    &&& additional.member("id"@) matches Some(JsonView::Text(id))
    &&& ids::uuid_value(id) is Ok
}

/// Whether a hit is that of an object of a reply.
pub open spec fn is_hit(object: JsonView, hit: (i64, NumberView)) -> bool {
    &&& object.member("_additional"@) matches Some(additional)
    &&& additional.member("id"@) matches Some(JsonView::Text(id))
    &&& ids::uuid_value(id) matches Ok(value)
    &&& hit.0 == value as i64
    &&& hit.1 == match additional.member("distance"@) {
        Some(JsonView::Number(n)) => n,
        _ => NumberView::Float("0.0"@),
    }
}

/// The hits of a reply that came as a message are those of its results that say who they are, in their
/// order.
pub proof fn hits_come_from_their_results(results: Seq<Option<ReplyMetadata>>) -> (at: Seq<int>)
    ensures
        engine::reply_hits(results) matches Ok(hits) ==> {
            &&& at.len() == hits.len()
            &&& forall|j: int|
                0 <= j < at.len() ==> 0 <= #[trigger] at[j] < results.len() && (
                results[at[j]] matches Some(m) && ids::uuid_value(m.id@) matches Ok(value)
                    && hits[j].0 == value as i64 && hits[j].1 == m.distance)
            &&& forall|j: int, l: int| 0 <= j < l < at.len() ==> at[j] < at[l]
            &&& forall|i: int|
                0 <= i < results.len() && (#[trigger] results[i]) is Some ==> at.contains(i)
        },
        engine::reply_hits(results) is Err ==> exists|i: int|
            0 <= i < results.len() && ((#[trigger] results[i]) matches Some(m) && ids::uuid_value(
                m.id@,
            ) is Err),
    decreases results.len(),
{
    if results.len() == 0 {
        Seq::empty()
    } else {
        let front = results.drop_last();
        let n = front.len() as int;
        let before = hits_come_from_their_results(front);
        assert forall|i: int| 0 <= i < n implies #[trigger] results[i] == front[i] by {}
        if engine::reply_hits(front) is Err {
            let i = choose|i: int|
                0 <= i < front.len() && ((#[trigger] front[i]) matches Some(m) && ids::uuid_value(
                    m.id@,
                ) is Err);
            assert(results[i] == front[i]);
            before
        } else if results[n] is Some {
            let at = before.push(n);
            if let Ok(hits) = engine::reply_hits(results) {
                let earlier = engine::reply_hits(front)->Ok_0;
                assert forall|j: int| 0 <= j < at.len() implies 0 <= #[trigger] at[j]
                    < results.len() && (results[at[j]] matches Some(m) && ids::uuid_value(
                    m.id@,
                ) matches Ok(value) && hits[j].0 == value as i64 && hits[j].1 == m.distance) by {
                    if j < before.len() {
                        assert(at[j] == before[j]);
                        assert(results[before[j]] == front[before[j]]);
                        assert(hits[j] == earlier[j]);
                    }
                }
                assert forall|i: int|
                    0 <= i < results.len() && (#[trigger] results[i]) is Some implies at.contains(
                    i,
                ) by {
                    if i < n {
                        assert(front[i] is Some);
                        let j = choose|j: int| 0 <= j < before.len() && before[j] == i;
                        assert(at[j] == i);
                    } else {
                        assert(at[before.len() as int] == i);
                    }
                }
            } else {
                assert(results[n] is Some);
            }
            at
        } else {
            let hits = engine::reply_hits(results)->Ok_0;
            assert forall|j: int| 0 <= j < before.len() implies 0 <= #[trigger] before[j]
                < results.len() && (results[before[j]] matches Some(m) && ids::uuid_value(
                m.id@,
            ) matches Ok(value) && hits[j].0 == value as i64 && hits[j].1 == m.distance) by {
                assert(results[before[j]] == front[before[j]]);
            }
            assert forall|i: int|
                0 <= i < results.len() && (#[trigger] results[i]) is Some implies before.contains(
                i,
            ) by {
                assert(front[i] is Some);
            }
            before
        }
    }
}

} // verus!
