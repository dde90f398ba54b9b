//! The records of passages and queries.
use vstd::prelude::*;

use crate::json::{self, int_value, new_members, put_member, text_value, Json};
use crate::json::JsonView;

verus! {

/// The name of field `i` of a payload.
pub open spec fn field_name(i: int) -> Seq<char> {
    if i == 0 {
        "docid"@
    } else if i == 1 {
        "url"@
    } else if i == 2 {
        "title"@
    } else if i == 3 {
        "headings"@
    } else if i == 4 {
        "segment"@
    } else if i == 5 {
        "start_char"@
    } else {
        "end_char"@
    }
}

/// The type of field `i` of a payload.
pub open spec fn field_kind(i: int) -> Seq<char> {
    if i <= 1 {
        "keyword"@
    } else if i <= 4 {
        "text"@
    } else {
        "int"@
    }
}

/// The names of the fields of a payload.
pub fn payload_field_names() -> (r: Vec<&'static str>)
    ensures
        r@.len() == 7,
        forall|i: int| 0 <= i < 7 ==> (#[trigger] r@[i])@ == field_name(i),
{
    let mut r: Vec<&'static str> = Vec::new();
    r.push("docid");
    r.push("url");
    r.push("title");
    r.push("headings");
    r.push("segment");
    r.push("start_char");
    r.push("end_char");
    r
}

/// The type of a field of a payload, by its place.
pub fn field_type(i: usize) -> (r: &'static str)
    requires
        i < 7,
    ensures
        r@ == field_kind(i as int),
{
    if i <= 1 {
        "keyword"
    } else if i <= 4 {
        "text"
    } else {
        "int"
    }
}

/// Those of the first `n` fields of a payload that the record has, in the order of the fields.
pub open spec fn kept_fields(record: JsonView, n: int) -> Seq<(Seq<char>, JsonView)>
    decreases n,
{
    if n <= 0 {
        json::no_members()
    } else {
        match record.member(field_name(n - 1)) {
            Some(v) => kept_fields(record, n - 1).push((field_name(n - 1), v)),
            None => kept_fields(record, n - 1),
        }
    }
}

/// What of a passage's record is stored: the fields of a payload that it has, in their order. A record without a
/// document identifier is an error: its place could not be checked.
pub fn payload_from_passage(record: &Json) -> (r: Result<Json, String>)
    ensures
        !(record@ is Object) ==> (r matches Err(e) && e@ == "passage record is not a JSON object"@),
        record@ is Object && record@.member("docid"@) is None ==> (r matches Err(e) && e@
            == "passage record has no 'docid' field"@),
        record@ is Object && record@.member("docid"@) is Some ==> (r matches Ok(p) && p@
            == JsonView::Object(kept_fields(record@, 7))),
{
    broadcast use json::lemma_object_view;

    if record.as_object().is_none() {
        return Err("passage record is not a JSON object".to_owned());
    }
    if record.get("docid").is_none() {
        return Err("passage record has no 'docid' field".to_owned());
    }
    let names: Vec<&'static str> = payload_field_names();
    let mut members: Vec<(String, Json)> = new_members();
    let mut i: usize = 0;
    while i < names.len()
        invariant
            i <= names@.len(),
            names@.len() == 7,
            forall|j: int| 0 <= j < 7 ==> (#[trigger] names@[j])@ == field_name(j),
            json::members_view(members@) == kept_fields(record@, i as int),
        decreases names@.len() - i,
    {
        if let Some(v) = record.get(names[i]) {
            let ghost before = json::members_view(members@);
            members.push((names[i].to_owned(), v.clone()));
            assert(json::members_view(members@) =~= before.push((names@[i as int]@, v@)));
        }
        i += 1;
    }
    Ok(Json::Object(members))
}

/// What is found under a key once a member is added at the end.
proof fn lemma_member_of_push(
    members: Seq<(Seq<char>, JsonView)>,
    last: (Seq<char>, JsonView),
    key: Seq<char>,
)
    ensures
        json::member_of(members.push(last), key) == match json::member_of(members, key) {
            Some(v) => Some(v),
            None => if last.0 == key {
                Some(last.1)
            } else {
                None
            },
        },
    decreases members.len(),
{
    if members.len() == 0 {
        assert(members.push(last).skip(1) =~= Seq::empty());
    } else {
        assert(members.push(last).skip(1) =~= members.skip(1).push(last));
        lemma_member_of_push(members.skip(1), last, key);
    }
}

/// A payload holds no field but those that are registered, with the value that the record has.
pub proof fn payloads_hold_registered_fields_only(record: JsonView, key: Seq<char>, n: int)
    requires
        0 <= n <= 7,
        json::member_of(kept_fields(record, n), key) is Some,
    ensures
        exists|i: int| 0 <= i < n && key == #[trigger] field_name(i),
        json::member_of(kept_fields(record, n), key) == record.member(key),
    decreases n,
{
    if n > 0 {
        let before = kept_fields(record, n - 1);
        if let Some(v) = record.member(field_name(n - 1)) {
            lemma_member_of_push(before, (field_name(n - 1), v), key);
        }
        if json::member_of(before, key) is Some {
            payloads_hold_registered_fields_only(record, key, n - 1);
        }
    }
}

/// A payload holds every registered field that the record has.
pub proof fn registered_fields_are_kept(record: JsonView, i: int, n: int)
    requires
        0 <= i < n <= 7,
    ensures
        json::member_of(kept_fields(record, n), field_name(i)) == record.member(field_name(i)),
    decreases n,
{
    let before = kept_fields(record, n - 1);
    if let Some(v) = record.member(field_name(n - 1)) {
        lemma_member_of_push(before, (field_name(n - 1), v), field_name(i));
    }
    if i < n - 1 {
        registered_fields_are_kept(record, i, n - 1);
    }
    if json::member_of(before, field_name(i)) is Some {
        payloads_hold_registered_fields_only(record, field_name(i), n - 1);
    }
}

/// The record of one query: its vector, the numbers and scores of its neighbours, and where it comes
/// from. It has no conditions: the queries are not filtered.
pub open spec fn test_record(
    query: Seq<JsonView>,
    query_id: Seq<char>,
    query_text: Seq<char>,
    trec_year: Option<i64>,
    ids: Seq<i64>,
    scores: Seq<JsonView>,
) -> JsonView {
    let base = json::put(json::no_members(), "query"@, JsonView::Array(query));
    let with_ids = json::put(
        base,
        "closest_ids"@,
        JsonView::Array(Seq::new(ids.len(), |i: int| json::int_view(ids[i]))),
    );
    let with_scores = json::put(with_ids, "closest_scores"@, JsonView::Array(scores));
    let with_id = json::put(with_scores, "query_id"@, JsonView::Text(query_id));
    let with_text = json::put(with_id, "query_text"@, JsonView::Text(query_text));
    JsonView::Object(
        json::put(
            with_text,
            "trec_year"@,
            match trec_year {
                Some(y) => json::int_view(y),
                None => JsonView::Null,
            },
        ),
    )
}

/// The record of one query, whose vector and scores are given as JSON numbers.
pub fn test_row(
    query: &Vec<Json>,
    query_id: &str,
    query_text: &str,
    trec_year: Option<i64>,
    ranked: &[(Json, i64)],
) -> (r: Json)
    ensures
        r@ == test_record(
            json::items_view(query@),
            query_id@,
            query_text@,
            trec_year,
            Seq::new(ranked@.len(), |i: int| ranked@[i].1),
            Seq::new(ranked@.len(), |i: int| ranked@[i].0@),
        ),
{
    broadcast use {json::lemma_object_view, json::lemma_array_view};

    let mut ids: Vec<Json> = Vec::new();
    let mut scores: Vec<Json> = Vec::new();
    let mut i: usize = 0;
    while i < ranked.len()
        invariant
            i <= ranked@.len(),
            ids@.len() == i,
            scores@.len() == i,
            forall|j: int| 0 <= j < i ==> (#[trigger] ids@[j])@ == json::int_view(ranked@[j].1),
            forall|j: int| 0 <= j < i ==> (#[trigger] scores@[j])@ == ranked@[j].0@,
        decreases ranked@.len() - i,
    {
        ids.push(int_value(ranked[i].1));
        scores.push(ranked[i].0.clone());
        i += 1;
    }
    proof {
        let numbers = Seq::new(ranked@.len(), |j: int| ranked@[j].1);
        assert(json::items_view(ids@) =~= Seq::new(
            numbers.len(),
            |j: int| json::int_view(numbers[j]),
        ));
        assert(json::items_view(scores@) =~= Seq::new(ranked@.len(), |j: int| ranked@[j].0@));
    }
    let mut members: Vec<(String, Json)> = new_members();
    put_member(&mut members, "query", Json::Array(json::copy_items(query)));
    put_member(&mut members, "closest_ids", Json::Array(ids));
    put_member(&mut members, "closest_scores", Json::Array(scores));
    put_member(&mut members, "query_id", text_value(query_id));
    put_member(&mut members, "query_text", text_value(query_text));
    let year: Json = match trec_year {
        Some(y) => int_value(y),
        None => Json::Null,
    };
    put_member(&mut members, "trec_year", year);
    Json::Object(members)
}

} // verus!
