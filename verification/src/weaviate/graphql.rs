//! The GraphQL search query and its reply.
use vstd::prelude::*;

use crate::json::{self, Json, JsonNumber};
use crate::json::{JsonView, NumberView};
use crate::json_parse::{
    self, debug_values, json_of, parse_value, value_items, value_member, value_view,
};
use crate::json_text::{self, number, quote};
use crate::text::{self, decimal_text, same_text};
use crate::weaviate::http::{self, check_query_answered, new_unparsable, HttpReply};
use crate::weaviate::ids::{self, uuid_to_int};

verus! {

/// A value as a GraphQL literal: keys stand without quotes, and so does the value of `operator`; every
/// other scalar is written as JSON writes it.
pub open spec fn literal(v: JsonView) -> Seq<char>
    decreases v, 0int,
{
    match v {
        JsonView::Null => "null"@,
        JsonView::Bool(b) => if b {
            "true"@
        } else {
            "false"@
        },
        JsonView::Number(n) => json_text::number_text(n),
        JsonView::Text(s) => json_text::quoted_text(s),
        JsonView::Array(items) => "["@ + items_literal(items) + "]"@,
        JsonView::Object(members) => "{"@ + members_literal(members) + "}"@,
    }
}

/// The literals of the items of an array, with commas between them.
pub open spec fn items_literal(items: Seq<JsonView>) -> Seq<char>
    decreases items, 0int,
{
    if items.len() == 0 {
        Seq::empty()
    } else if items.len() == 1 {
        literal(items[0])
    } else {
        items_literal(items.drop_last()) + ", "@ + literal(items.last())
    }
}

/// What stands for the value under `key`.
pub open spec fn member_value_literal(key: Seq<char>, v: JsonView) -> Seq<char>
    decreases v, 1int,
{
    if key == "operator"@ {
        match v {
            JsonView::Text(s) => s,
            _ => Seq::empty(),
        }
    } else {
        literal(v)
    }
}

/// The literals of the members of an object, with commas between them.
pub open spec fn members_literal(members: Seq<(Seq<char>, JsonView)>) -> Seq<char>
    decreases members, 0int,
{
    if members.len() == 0 {
        Seq::empty()
    } else if members.len() == 1 {
        members[0].0 + ": "@ + member_value_literal(members[0].0, members[0].1)
    } else {
        members_literal(members.drop_last()) + ", "@ + (members.last().0 + ": "@
            + member_value_literal(members.last().0, members.last().1))
    }
}

/// Writes the items of an array.
fn push_items(out: &mut String, items: &Vec<Json>)
    ensures
        final(out)@ == old(out)@ + items_literal(json::items_view(items@)),
    decreases items, 0int,
{
    let ghost views = json::items_view(items@);
    let ghost before = out@;
    let mut i: usize = 0;
    assert(before + items_literal(views.take(0)) =~= before);
    while i < items.len()
        invariant
            i <= items@.len(),
            views == json::items_view(items@),
            out@ == before + items_literal(views.take(i as int)),
        decreases items@.len() - i,
    {
        proof {
            assert(views.take(i + 1).drop_last() =~= views.take(i as int));
            assert(views.take(i + 1).last() == views[i as int]);
        }
        if i > 0 {
            out.append(", ");
        }
        push_literal(out, &items[i]);
        assert(out@ =~= before + items_literal(views.take(i + 1)));
        i += 1;
    }
    assert(views.take(i as int) =~= views);
}

/// Writes the members of an object.
fn push_members(out: &mut String, members: &Vec<(String, Json)>)
    ensures
        final(out)@ == old(out)@ + members_literal(json::members_view(members@)),
    decreases members, 0int,
{
    let ghost views = json::members_view(members@);
    let ghost before = out@;
    let mut i: usize = 0;
    assert(before + members_literal(views.take(0)) =~= before);
    while i < members.len()
        invariant
            i <= members@.len(),
            views == json::members_view(members@),
            out@ == before + members_literal(views.take(i as int)),
        decreases members@.len() - i,
    {
        proof {
            assert(views.take(i + 1).drop_last() =~= views.take(i as int));
            assert(views.take(i + 1).last() == views[i as int]);
            assert(decreases_to!(members@[i as int] => members@[i as int].1));
        }
        let ghost part = views[i as int].0 + ": "@ + member_value_literal(
            views[i as int].0,
            views[i as int].1,
        );
        if i > 0 {
            out.append(", ");
        }
        let ghost sofar = out@;
        out.append(members[i].0.as_str());
        out.append(": ");
        if same_text(members[i].0.as_str(), "operator") {
            if let Some(s) = members[i].1.as_str() {
                out.append(s);
            }
        } else {
            push_literal(out, &members[i].1);
        }
        assert(out@ =~= sofar + part);
        assert(i == 0 ==> members_literal(views.take(i + 1)) == part);
        assert(out@ =~= before + members_literal(views.take(i + 1)));
        i += 1;
    }
    assert(views.take(i as int) =~= views);
}

/// Writes a value as a GraphQL literal.
fn push_literal(out: &mut String, v: &Json)
    ensures
        final(out)@ == old(out)@ + literal(v@),
    decreases v, 0int,
{
    broadcast use {json::lemma_array_view, json::lemma_object_view};

    let ghost before = out@;
    match v {
        Json::Null => {
            out.append("null");
        },
        Json::Bool(b) => {
            if *b {
                out.append("true");
            } else {
                out.append("false");
            }
        },
        Json::Number(n) => {
            out.append(number(n).as_str());
        },
        Json::Text(s) => {
            out.append(quote(s.as_str()).as_str());
        },
        Json::Array(items) => {
            out.append("[");
            push_items(out, items);
            out.append("]");
        },
        Json::Object(members) => {
            out.append("{");
            push_members(out, members);
            out.append("}");
        },
    }
    assert(out@ =~= before + literal(v@));
}

/// A where-filter as a GraphQL object literal: keys without quotes, the operator as an enum value,
/// every other scalar as JSON writes it.
pub fn json_to_graphql_literal(v: &Json) -> (r: String)
    ensures
        r@ == literal(v@),
{
    let mut out: String = String::new();
    push_literal(&mut out, v);
    assert(out@ =~= literal(v@));
    out
}

/// The texts with commas between them.
pub open spec fn listed_texts(texts: Seq<String>) -> Seq<char>
    decreases texts.len(),
{
    if texts.len() == 0 {
        Seq::empty()
    } else if texts.len() == 1 {
        texts[0]@
    } else {
        listed_texts(texts.drop_last()) + ", "@ + texts.last()@
    }
}

/// The where-argument of a query.
pub open spec fn where_argument(filter: Option<JsonView>) -> Seq<char> {
    match filter {
        Some(f) => ", where: "@ + literal(f),
        None => Seq::empty(),
    }
}

/// The query for the `top` objects of a class that are nearest to a vector, given as the texts of
/// its components.
pub open spec fn query_text(
    class_name: Seq<char>,
    components: Seq<String>,
    top: nat,
    filter: Option<JsonView>,
) -> Seq<char> {
    "{\n            Get {\n                "@ + class_name
        + "(\n                    nearVector: { vector: ["@ + listed_texts(components)
        + "] },\n                    limit: "@ + text::decimal(top) + "\n                    "@
        + where_argument(filter)
        + "\n                ) {\n                    _additional {\n                        id\n                        distance\n                    }\n                }\n            }\n        }"@
}

/// The query for the `top` objects of a class that are nearest to a vector.
pub fn graphql_query(class_name: &str, components: &[String], top: usize, filter: Option<&Json>) -> (r:
    String)
    ensures
        r@ == query_text(
            class_name@,
            components@,
            top as nat,
            match filter {
                Some(f) => Some(f@),
                None => None,
            },
        ),
{
    let mut vector: String = String::new();
    let mut i: usize = 0;
    assert(vector@ =~= listed_texts(components@.take(0)));
    while i < components.len()
        invariant
            i <= components@.len(),
            vector@ == listed_texts(components@.take(i as int)),
        decreases components@.len() - i,
    {
        proof {
            assert(components@.take(i + 1).drop_last() =~= components@.take(i as int));
            assert(components@.take(i + 1).last() == components@[i as int]);
        }
        if i > 0 {
            vector.append(", ");
        }
        vector.append(components[i].as_str());
        assert(vector@ =~= listed_texts(components@.take(i + 1)));
        i += 1;
    }
    assert(components@.take(i as int) =~= components@);
    let mut clause: String = String::new();
    if let Some(f) = filter {
        clause.append(", where: ");
        push_literal(&mut clause, f);
    }
    assert(clause@ =~= where_argument(
        match filter {
            Some(f) => Some(f@),
            None => None,
        },
    ));
    let mut q: String = "{\n            Get {\n                ".to_owned();
    q.append(class_name);
    q.append("(\n                    nearVector: { vector: [");
    q.append(vector.as_str());
    q.append("] },\n                    limit: ");
    q.append(decimal_text(top as u64).as_str());
    q.append("\n                    ");
    q.append(clause.as_str());
    q.append(
        "\n                ) {\n                    _additional {\n                        id\n                        distance\n                    }\n                }\n            }\n        }",
    );
    q
}

/// The body that a query is sent in: an object with the query under `query`, as compact JSON in UTF-8.
pub open spec fn query_body(query: Seq<char>) -> Seq<u8> {
    vstd::utf8::encode_utf8(object_text("query"@, query))
}

/// An object with one text, as compact JSON.
pub open spec fn object_text(key: Seq<char>, value: Seq<char>) -> Seq<char> {
    "{"@ + json_text::quoted_text(key) + ":"@ + json_text::quoted_text(value) + "}"@
}

/// `serde_json::to_vec` of a map with one entry: the object in compact form, in UTF-8, its key and its
/// value quoted as `serde_json::to_string` quotes them. A map of texts always has a JSON form.
#[verifier::external_body]
fn write_object(key: &str, value: &str) -> (bytes: Vec<u8>)
    ensures
        bytes@ == vstd::utf8::encode_utf8(object_text(key@, value@)),
{
    serde_json::to_vec(&std::collections::BTreeMap::from([(key, value)])).unwrap()
}

/// The body of the request for the `top` objects of a class that are nearest to a vector.
pub fn build_graphql_body(
    class_name: &str,
    components: &[String],
    top: usize,
    filter: Option<&Json>,
) -> (bytes: Vec<u8>)
    ensures
        bytes@ == query_body(
            query_text(
                class_name@,
                components@,
                top as nat,
                match filter {
                    Some(f) => Some(f@),
                    None => None,
                },
            ),
        ),
{
    write_object("query", graphql_query(class_name, components, top, filter).as_str())
}

/// Whether a reply carries errors.
pub open spec fn has_errors(reply: JsonView) -> bool {
    match reply.member("errors"@) {
        Some(JsonView::Array(errors)) => errors.len() > 0,
        _ => false,
    }
}

/// The objects that a reply lists for a class.
pub open spec fn listed_objects(reply: JsonView, class_name: Seq<char>) -> Option<Seq<JsonView>> {
    match reply.member("data"@) {
        Some(data) => match data.member("Get"@) {
            Some(got) => match got.member(class_name) {
                Some(JsonView::Array(objects)) => Some(objects),
                _ => None,
            },
            None => None,
        },
        None => None,
    }
}

/// The distance that an object was found at; zero where the reply gives none.
pub open spec fn distance_of(additional: JsonView) -> NumberView {
    match additional.member("distance"@) {
        Some(JsonView::Number(n)) => n,
        _ => NumberView::Float("0.0"@),
    }
}

/// The row number and the distance of one object of a reply.
pub open spec fn object_hit(object: JsonView) -> Result<(i64, NumberView), Seq<char>> {
    match object.member("_additional"@) {
        None => Err("Missing _additional"@),
        Some(additional) => match additional.member("id"@) {
            Some(JsonView::Text(id)) => match ids::read_id(ids::uuid_value(id), id) {
                Ok(row) => Ok((row, distance_of(additional))),
                Err(e) => Err(e),
            },
            _ => Err("Missing id"@),
        },
    }
}

/// The row numbers and distances of the objects of a reply, or what is wrong with the first object
/// that has none.
pub open spec fn object_hits(objects: Seq<JsonView>) -> Result<Seq<(i64, NumberView)>, Seq<char>>
    decreases objects.len(),
{
    if objects.len() == 0 {
        Ok(Seq::empty())
    } else {
        match object_hits(objects.drop_last()) {
            Ok(earlier) => match object_hit(objects.last()) {
                Ok(hit) => Ok(earlier.push(hit)),
                Err(e) => Err(e),
            },
            Err(e) => Err(e),
        }
    }
}

/// The views of a list of hits.
pub open spec fn hits_view(hits: Seq<(i64, JsonNumber)>) -> Seq<(i64, NumberView)> {
    Seq::new(hits.len(), |i: int| (hits[i].0, hits[i].1@))
}

/// An error among the first objects is the error of the whole list.
proof fn lemma_object_hits_prefix(objects: Seq<JsonView>, n: int)
    requires
        0 <= n <= objects.len(),
        object_hits(objects.take(n)) is Err,
    ensures
        object_hits(objects) == object_hits(objects.take(n)),
    decreases objects.len() - n,
{
    if n < objects.len() {
        assert(objects.take(n + 1).drop_last() =~= objects.take(n));
        lemma_object_hits_prefix(objects, n + 1);
    } else {
        assert(objects.take(n) =~= objects);
    }
}

/// The row number and the distance of one object of a reply.
fn read_hit(object: &Json) -> (r: Result<(i64, JsonNumber), String>)
    ensures
        r is Ok == object_hit(object@) is Ok,
        r matches Ok(hit) ==> object_hit(object@)->Ok_0 == (hit.0, hit.1@),
        r matches Err(e) ==> object_hit(object@)->Err_0 == e@,
{
    let additional: &Json = match object.get("_additional") {
        Some(v) => v,
        None => return Err("Missing _additional".to_owned()),
    };
    let id: &str = match additional.get("id") {
        Some(v) => match v.as_str() {
            Some(s) => s,
            None => return Err("Missing id".to_owned()),
        },
        None => return Err("Missing id".to_owned()),
    };
    let distance: JsonNumber = match additional.get("distance") {
        Some(Json::Number(n)) => n.clone(),
        _ => JsonNumber::Float("0.0".to_owned()),
    };
    match uuid_to_int(id) {
        Ok(row) => Ok((row, distance)),
        Err(e) => Err(e),
    }
}

/// The row numbers and distances that a reply lists for a class, or what is wrong with the reply.
pub open spec fn answer(reply: JsonView, class_name: Seq<char>, errors_shown: Seq<char>) -> Result<
    Seq<(i64, NumberView)>,
    Seq<char>,
> {
    if has_errors(reply) {
        Err("GraphQL errors: "@ + errors_shown)
    } else {
        match listed_objects(reply, class_name) {
            None => Err("Missing results in GraphQL response"@),
            Some(objects) => object_hits(objects),
        }
    }
}

/// The row numbers and distances that a reply lists for a class, in order. A reply with errors gives
/// an error that shows them, as `errors_shown` writes them.
pub fn extract_graphql_hits(resp_body: &Json, class_name: &str, errors_shown: &str) -> (r: Result<
    Vec<(i64, JsonNumber)>,
    String,
>)
    ensures
        match answer(resp_body@, class_name@, errors_shown@) {
            Ok(hits) => r matches Ok(v) && hits_view(v@) == hits,
            Err(e) => r matches Err(m) && m@ == e,
        },
{
    if let Some(v) = resp_body.get("errors") {
        if let Some(errors) = v.as_array() {
            if errors.len() > 0 {
                let mut e: String = "GraphQL errors: ".to_owned();
                e.append(errors_shown);
                return Err(e);
            }
        }
    }
    let objects: &Vec<Json> = match resp_body.get("data") {
        Some(data) => match data.get("Get") {
            Some(got) => match got.get(class_name) {
                Some(list) => match list.as_array() {
                    Some(objects) => objects,
                    None => return Err("Missing results in GraphQL response".to_owned()),
                },
                None => return Err("Missing results in GraphQL response".to_owned()),
            },
            None => return Err("Missing results in GraphQL response".to_owned()),
        },
        None => return Err("Missing results in GraphQL response".to_owned()),
    };
    let ghost views = json::items_view(objects@);
    let mut hits: Vec<(i64, JsonNumber)> = Vec::new();
    let mut i: usize = 0;
    assert(hits_view(hits@) =~= Seq::empty());
    while i < objects.len()
        invariant
            i <= objects@.len(),
            views == json::items_view(objects@),
            listed_objects(resp_body@, class_name@) == Some(views),
            !has_errors(resp_body@),
            object_hits(views.take(i as int)) matches Ok(found) && found == hits_view(hits@),
        decreases objects@.len() - i,
    {
        let ghost sofar = hits_view(hits@);
        proof {
            assert(views.take(i + 1).drop_last() =~= views.take(i as int));
            assert(views.take(i + 1).last() == views[i as int]);
        }
        match read_hit(&objects[i]) {
            Ok(hit) => {
                hits.push(hit);
                assert(hits_view(hits@) =~= sofar.push((hit.0, hit.1@)));
            },
            Err(e) => {
                proof {
                    lemma_object_hits_prefix(views, i + 1);
                }
                return Err(e);
            },
        }
        i += 1;
    }
    assert(views.take(i as int) =~= views);
    Ok(hits)
}

/// The errors of a reply as they are shown; nothing where it has no list of them.
pub open spec fn errors_text(reply: JsonView) -> Seq<char> {
    match reply.member("errors"@) {
        Some(JsonView::Array(errors)) => json_parse::debug_items(errors),
        _ => Seq::empty(),
    }
}

/// The errors of a reply as they are shown; nothing where it has no list of them.
fn show_errors(reply: &serde_json::Value) -> (r: String)
    ensures
        r@ == errors_text(value_view(*reply)),
{
    if let Some(errors) = value_member(reply, "errors") {
        if let Some(items) = value_items(errors) {
            return debug_values(items);
        }
    }
    let r: String = String::new();
    assert(r@ =~= Seq::empty());
    r
}

/// A reply to a query: what its body holds, and its errors as they are shown.
pub struct GraphqlReply {
    body: Json,
    errors_shown: String,
}

impl View for GraphqlReply {
    type V = JsonView;

    closed spec fn view(&self) -> JsonView {
        self.body@
    }
}

impl GraphqlReply {
    #[verifier::type_invariant]
    spec fn shows_its_errors(self) -> bool {
        self.errors_shown@ == errors_text(self.body@)
    }

    /// The row numbers and distances that the reply lists for a class, in order, or what is wrong with
    /// it.
    pub fn hits(&self, class_name: &str) -> (r: Result<Vec<(i64, JsonNumber)>, String>)
        ensures
            match answer(self@, class_name@, errors_text(self@)) {
                Ok(hits) => r matches Ok(v) && hits_view(v@) == hits,
                Err(e) => r matches Err(m) && m@ == e,
            },
    {
        proof {
            use_type_invariant(self);
        }
        extract_graphql_hits(&self.body, class_name, self.errors_shown.as_str())
    }
}

/// Reads the reply to a query: one of success brings JSON.
pub fn read_graphql_reply(reply: &HttpReply) -> (r: Result<GraphqlReply, String>)
    ensures
        !http::succeeds(reply.code) ==> (r matches Err(e) && e@ == http::refusal(
            "GraphQL search error: "@,
            *reply,
        )),
        http::succeeds(reply.code) ==> match json_parse::parsed_json(reply.body@) {
            Ok(v) => r matches Ok(g) && g@ == v,
            Err(e) => r matches Err(m) && m@ == "Failed to parse GraphQL response: "@ + e,
        },
{
    if let Err(e) = check_query_answered(reply) {
        return Err(e);
    }
    match parse_value(reply.body.as_str()) {
        Ok(value) => Ok(
            GraphqlReply { errors_shown: show_errors(&value), body: json_of(&value) },
        ),
        Err(e) => Err(new_unparsable("Failed to parse GraphQL response: ", e.as_str())),
    }
}

} // verus!
