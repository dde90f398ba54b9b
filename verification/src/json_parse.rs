//! JSON values out of text.
use vstd::prelude::*;

use crate::json::{self, Json, JsonNumber, JsonView};

verus! {

/// A value of `serde_json`.
#[verifier::external_type_specification]
#[verifier::external_body]
pub struct ExValue(serde_json::Value);

/// What a value of `serde_json` holds. The members of an object stand in the order in which its map
/// hands them out, and a number that is no whole number of 64 bits is the text that `serde_json` writes
/// for it.
pub uninterp spec fn value_view(value: serde_json::Value) -> JsonView;

/// What `serde_json` reads out of a text, or what it says of a text that is no JSON.
pub uninterp spec fn parsed_json(text: Seq<char>) -> Result<JsonView, Seq<char>>;

/// Values of `serde_json` as a list shows them for debugging.
pub uninterp spec fn debug_items(items: Seq<JsonView>) -> Seq<char>;

/// What values of `serde_json` hold.
pub open spec fn values_view(values: Seq<serde_json::Value>) -> Seq<JsonView> {
    Seq::new(values.len(), |i: int| value_view(values[i]))
}

/// `serde_json::from_str` of a value: what the text holds, or the text of the error. Both depend on the
/// text alone.
#[verifier::external_body]
pub(crate) fn parse_value(text: &str) -> (r: Result<serde_json::Value, String>)
    ensures
        match parsed_json(text@) {
            Ok(v) => r matches Ok(value) && value_view(value) == v,
            Err(e) => r matches Err(m) && m@ == e,
        },
{
    serde_json::from_str(text).map_err(|e| e.to_string())
}

/// A value of `serde_json` taken apart.
pub(crate) enum ValueParts<'a> {
    Null,
    Bool(bool),
    Number(JsonNumber),
    Text(&'a String),
    Array(&'a Vec<serde_json::Value>),
    Object(Vec<(&'a String, &'a serde_json::Value)>),
}

/// What members of an object of `serde_json` hold.
pub open spec fn entries_view(entries: Seq<(&String, &serde_json::Value)>) -> Seq<(Seq<char>, JsonView)> {
    Seq::new(entries.len(), |i: int| (entries[i].0@, value_view(*entries[i].1)))
}

/// The variant of a `serde_json::Value` with what it holds. The members of an object come in the order
/// in which `serde_json::Map::iter` hands them out, and of a number `Number::as_u64` and `Number::as_i64`
/// tell the kind; one of neither kind is the text that `Number::to_string` writes.
#[verifier::external_body]
fn parts_of(value: &serde_json::Value) -> (r: ValueParts<'_>)
    ensures
        match value_view(*value) {
            JsonView::Null => r is Null,
            JsonView::Bool(b) => r == ValueParts::Bool(b),
            JsonView::Number(n) => r matches ValueParts::Number(m) && m@ == n,
            JsonView::Text(s) => r matches ValueParts::Text(t) && t@ == s,
            JsonView::Array(items) => r matches ValueParts::Array(v) && values_view(v@) == items,
            JsonView::Object(members) => r matches ValueParts::Object(v) && entries_view(v@) == members,
        },
{
    match value {
        serde_json::Value::Null => ValueParts::Null,
        serde_json::Value::Bool(b) => ValueParts::Bool(*b),
        serde_json::Value::String(s) => ValueParts::Text(s),
        serde_json::Value::Number(n) => ValueParts::Number(match (n.as_u64(), n.as_i64()) {
            (Some(u), _) => JsonNumber::PosInt(u),
            (None, Some(i)) => JsonNumber::NegInt(i),
            (None, None) => JsonNumber::Float(n.to_string()),
        }),
        serde_json::Value::Array(a) => ValueParts::Array(a),
        serde_json::Value::Object(o) => ValueParts::Object(o.iter().collect()),
    }
}

/// What a value of `serde_json` holds, in the library's own type.
pub(crate) fn json_of(value: &serde_json::Value) -> (r: Json)
    ensures
        r@ == value_view(*value),
    decreases value_view(*value),
{
    broadcast use {json::lemma_array_view, json::lemma_object_view};

    match parts_of(value) {
        ValueParts::Null => Json::Null,
        ValueParts::Bool(b) => Json::Bool(b),
        ValueParts::Number(n) => Json::Number(n),
        ValueParts::Text(s) => Json::Text(s.clone()),
        ValueParts::Array(values) => {
            let ghost views = values_view(values@);
            let mut items: Vec<Json> = Vec::new();
            let mut i: usize = 0;
            while i < values.len()
                invariant
                    i <= values@.len(),
                    views == values_view(values@),
                    value_view(*value) == JsonView::Array(views),
                    items@.len() == i,
                    forall|j: int| 0 <= j < i ==> (#[trigger] items@[j])@ == views[j],
                decreases values@.len() - i,
            {
                assert(views[i as int] == value_view(values@[i as int]));
                assert(decreases_to!(value_view(*value) => value_view(*value)->Array_0[i as int]));
                items.push(json_of(&values[i]));
                i += 1;
            }
            assert(json::items_view(items@) =~= views);
            Json::Array(items)
        },
        ValueParts::Object(entries) => {
            let ghost views = entries_view(entries@);
            let mut members: Vec<(String, Json)> = Vec::new();
            let mut i: usize = 0;
            while i < entries.len()
                invariant
                    i <= entries@.len(),
                    views == entries_view(entries@),
                    value_view(*value) == JsonView::Object(views),
                    members@.len() == i,
                    forall|j: int|
                        0 <= j < i ==> (#[trigger] members@[j]).0@ == views[j].0 && members@[j].1@
                            == views[j].1,
                decreases entries@.len() - i,
            {
                let (key, member): (&String, &serde_json::Value) = entries[i];
                assert(views[i as int] == (key@, value_view(*member)));
                assert(decreases_to!(value_view(*value) => value_view(*value)->Object_0[i as int].1));
                members.push((key.clone(), json_of(member)));
                i += 1;
            }
            assert(json::members_view(members@) =~= views);
            Json::Object(members)
        },
    }
}

/// `serde_json::Value::get` with a key: the member of that name, where the value is an object that has
/// one.
#[verifier::external_body]
pub(crate) fn value_member<'a>(value: &'a serde_json::Value, key: &str) -> (r: Option<&'a serde_json::Value>)
    ensures
        match value_view(*value).member(key@) {
            Some(v) => r matches Some(m) && value_view(*m) == v,
            None => r is None,
        },
{
    value.get(key)
}

/// The items, where a value of `serde_json` is an array.
pub(crate) fn value_items(value: &serde_json::Value) -> (r: Option<&Vec<serde_json::Value>>)
    ensures
        match value_view(*value) {
            JsonView::Array(items) => r matches Some(v) && values_view(v@) == items,
            _ => r is None,
        },
{
    match parts_of(value) {
        ValueParts::Array(values) => Some(values),
        _ => None,
    }
}

/// `format!` with `{:?}` on values of `serde_json`: a function of what they hold.
#[verifier::external_body]
pub(crate) fn debug_values(values: &Vec<serde_json::Value>) -> (r: String)
    ensures
        r@ == debug_items(values_view(values@)),
{
    format!("{:?}", values)
}

/// The JSON value that a text holds, or what is wrong with the text.
pub fn parse_json(text: &str) -> (r: Result<Json, String>)
    ensures
        match parsed_json(text@) {
            Ok(v) => r matches Ok(j) && j@ == v,
            Err(e) => r matches Err(m) && m@ == e,
        },
{
    match parse_value(text) {
        Ok(value) => Ok(json_of(&value)),
        Err(e) => Err(e),
    }
}

} // verus!
