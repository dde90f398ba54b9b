//! Query conditions as Weaviate where-filters.
use vstd::prelude::*;

use crate::json::{self, new_members, put_member, single, text_value, Json, JsonNumber};
use crate::json::{JsonView, NumberView};
use crate::text::{self, decimal_text, same_text, signed_decimal_text};
use crate::weaviate::meaning::{self, Thing};

verus! {

/// The text under which an empty set of alternatives is searched for: no object holds it.
pub const NEVER: &'static str = "__match_any_never_match__";

/// What `serde_json` writes for the double nearest to the JSON number that a text writes; nothing
/// where the text is no JSON number.
pub uninterp spec fn number_as_double(number: Seq<char>) -> Option<Seq<char>>;

/// `serde_json::from_str` of a `Number`, then `Number::as_f64` and `Number::from_f64`: the number
/// that `number` writes, taken as a double and written out again. The text depends on `number` alone.
#[verifier::external_body]
fn double_text(number: &str) -> (r: Option<String>)
    ensures
        r is Some == number_as_double(number@) is Some,
        r matches Some(t) ==> number_as_double(number@) == Some(t@),
{
    let parsed: serde_json::Number = serde_json::from_str(number).ok()?;
    parsed.as_f64().and_then(serde_json::Number::from_f64).map(|n| n.to_string())
}

/// A JSON number taken as a double.
pub open spec fn as_double(n: NumberView) -> JsonView {
    match n {
        NumberView::PosInt(v) => double_value(text::decimal(v as nat)),
        NumberView::NegInt(v) => double_value(text::signed_decimal(v as int)),
        NumberView::Float(t) => JsonView::Number(NumberView::Float(t)),
    }
}

/// The double nearest to the number that `digits` writes.
pub open spec fn double_value(digits: Seq<char>) -> JsonView {
    match number_as_double(digits) {
        Some(t) => JsonView::Number(NumberView::Float(t)),
        None => JsonView::Null,
    }
}

/// The value as a double, where it is a number.
pub open spec fn double_of(v: JsonView) -> Option<JsonView> {
    match v {
        JsonView::Number(n) => Some(as_double(n)),
        _ => None,
    }
}

/// A comparison of one property with one value.
pub open spec fn leaf(
    field: Seq<char>,
    operator: Seq<char>,
    key: Seq<char>,
    value: JsonView,
) -> JsonView {
    let path = json::put(
        json::no_members(),
        "path"@,
        JsonView::Array(seq![JsonView::Text(field)]),
    );
    JsonView::Object(
        json::put(json::put(path, "operator"@, JsonView::Text(operator)), key, value),
    )
}

/// Several filters under one logical operator.
pub open spec fn group(operator: Seq<char>, operands: Seq<JsonView>) -> JsonView {
    JsonView::Object(
        json::put(
            json::put(json::no_members(), "operator"@, JsonView::Text(operator)),
            "operands"@,
            JsonView::Array(operands),
        ),
    )
}

/// No filter for no part, the part itself for one, a group for more.
pub open spec fn combined(operator: Seq<char>, parts: Seq<JsonView>) -> Option<JsonView> {
    if parts.len() == 0 {
        None
    } else if parts.len() == 1 {
        Some(parts[0])
    } else {
        Some(group(operator, parts))
    }
}

/// The list of the part that is there, or of none.
pub open spec fn listed(part: Option<JsonView>) -> Seq<JsonView> {
    match part {
        Some(p) => seq![p],
        None => Seq::empty(),
    }
}

/// The key under which a value to match is sent.
pub open spec fn match_value_key(v: JsonView) -> Seq<char> {
    if v is Text {
        "valueText"@
    } else if v.as_int() is Some {
        "valueInt"@
    } else if v is Number {
        "valueNumber"@
    } else if v is Bool {
        "valueBoolean"@
    } else {
        "valueText"@
    }
}

/// The key under which a bound of a range is sent.
pub open spec fn range_value_key(v: JsonView) -> Seq<char> {
    if v.as_int() is Some {
        "valueInt"@
    } else if v is Text {
        "valueText"@
    } else {
        "valueNumber"@
    }
}

/// Equality with `v`.
pub open spec fn equals(field: Seq<char>, v: JsonView) -> JsonView {
    leaf(field, "Equal"@, match_value_key(v), v)
}

/// A filter that no object passes.
pub open spec fn never(field: Seq<char>) -> JsonView {
    group(
        "And"@,
        seq![
            leaf(field, "Equal"@, "valueText"@, JsonView::Text(NEVER@)),
            leaf(field, "NotEqual"@, "valueText"@, JsonView::Text(NEVER@)),
        ],
    )
}

/// Equality with one of `values`.
pub open spec fn equals_any(field: Seq<char>, values: Seq<JsonView>) -> JsonView {
    if values.len() == 0 {
        never(field)
    } else if values.len() == 1 {
        equals(field, values[0])
    } else {
        group("Or"@, Seq::new(values.len(), |i: int| equals(field, values[i])))
    }
}

/// Whether a value can be matched exactly.
pub open spec fn is_scalar(v: JsonView) -> bool {
    v is Text || v is Number || v is Bool
}

/// The items under `key`, where an array stands there.
pub open spec fn items_under(v: JsonView, key: Seq<char>) -> Option<Seq<JsonView>> {
    match v.member(key) {
        Some(m) => m.items(),
        None => None,
    }
}

/// The filter of a `match` condition.
pub open spec fn match_filter(field: Seq<char>, criteria: JsonView) -> Option<JsonView> {
    match items_under(criteria, "any"@) {
        Some(values) => Some(equals_any(field, values)),
        None => match criteria.member("text"@) {
            Some(JsonView::Text(t)) => Some(
                leaf(field, "Equal"@, "valueText"@, JsonView::Text(t)),
            ),
            _ => match criteria.member("value"@) {
                Some(v) => if is_scalar(v) {
                    Some(equals(field, v))
                } else {
                    None
                },
                None => None,
            },
        },
    }
}

/// The comparison for the bound called `name`, where there is one.
pub open spec fn bound_filter(
    field: Seq<char>,
    criteria: JsonView,
    name: Seq<char>,
    operator: Seq<char>,
) -> Seq<JsonView> {
    match criteria.member(name) {
        Some(v) => if v is Null {
            Seq::empty()
        } else {
            seq![leaf(field, operator, range_value_key(v), v)]
        },
        None => Seq::empty(),
    }
}

/// The filter of a `range` condition.
pub open spec fn range_filter(field: Seq<char>, criteria: JsonView) -> Option<JsonView> {
    combined(
        "And"@,
        bound_filter(field, criteria, "lt"@, "LessThan"@) + bound_filter(
            field,
            criteria,
            "gt"@,
            "GreaterThan"@,
        ) + bound_filter(field, criteria, "lte"@, "LessThanEqual"@) + bound_filter(
            field,
            criteria,
            "gte"@,
            "GreaterThanEqual"@,
        ),
    )
}

/// The double under `key`, where a number stands there.
pub open spec fn double_under(v: JsonView, key: Seq<char>) -> Option<JsonView> {
    match v.member(key) {
        Some(m) => double_of(m),
        None => None,
    }
}

/// A search within `radius` of a point.
pub open spec fn within(
    field: Seq<char>,
    lat: JsonView,
    lon: JsonView,
    radius: JsonView,
) -> JsonView {
    let coordinates = json::put(
        json::put(json::no_members(), "latitude"@, lat),
        "longitude"@,
        lon,
    );
    let distance = json::put(json::no_members(), "max"@, radius);
    let range = json::put(
        json::put(json::no_members(), "geoCoordinates"@, JsonView::Object(coordinates)),
        "distance"@,
        JsonView::Object(distance),
    );
    leaf(field, "WithinGeoRange"@, "valueGeoRange"@, JsonView::Object(range))
}

/// The filter of a `geo` condition; the radius is a thousand where none is given.
pub open spec fn geo_filter(field: Seq<char>, criteria: JsonView) -> Option<JsonView> {
    match (double_under(criteria, "lat"@), double_under(criteria, "lon"@)) {
        (Some(lat), Some(lon)) => Some(
            within(
                field,
                lat,
                lon,
                match double_under(criteria, "radius"@) {
                    Some(r) => r,
                    None => JsonView::Number(NumberView::Float("1000.0"@)),
                },
            ),
        ),
        _ => None,
    }
}

/// The filter of one condition on one field.
pub open spec fn condition_filter(
    field: Seq<char>,
    condition: Seq<char>,
    criteria: JsonView,
) -> Option<JsonView> {
    if condition == "match"@ {
        match_filter(field, criteria)
    } else if condition == "range"@ {
        range_filter(field, criteria)
    } else if condition == "geo"@ {
        geo_filter(field, criteria)
    } else {
        None
    }
}

/// The filters of the conditions on one field, in the order of their names.
pub open spec fn field_filters(
    field: Seq<char>,
    conditions: Seq<(Seq<char>, JsonView)>,
) -> Seq<JsonView>
    decreases conditions.len(),
{
    if conditions.len() == 0 {
        Seq::empty()
    } else {
        field_filters(field, conditions.drop_last()) + listed(
            condition_filter(field, conditions.last().0, conditions.last().1),
        )
    }
}

/// The filters of the conditions on several fields, field by field.
pub open spec fn fields_filters(fields: Seq<(Seq<char>, JsonView)>) -> Seq<JsonView>
    decreases fields.len(),
{
    if fields.len() == 0 {
        Seq::empty()
    } else {
        fields_filters(fields.drop_last()) + match fields.last().1 {
            JsonView::Object(conditions) => field_filters(fields.last().0, conditions),
            _ => Seq::empty(),
        }
    }
}

/// The filter of one entry of an `and` or `or` list: of a nested group of conditions, or of the
/// conditions on its fields, all of which must hold.
pub open spec fn entry_filter(entry: JsonView) -> Option<JsonView>
    decreases entry, 1int,
{
    match entry {
        JsonView::Object(members) => if json::member_of(members, "and"@) is Some
            || json::member_of(members, "or"@) is Some {
            conditions_filter(entry)
        } else {
            combined("And"@, fields_filters(members))
        },
        _ => None,
    }
}

/// The filters of the entries of a list that have one.
pub open spec fn entries_filters(entries: Seq<JsonView>) -> Seq<JsonView>
    decreases entries, 0int,
{
    if entries.len() == 0 {
        Seq::empty()
    } else {
        entries_filters(entries.drop_last()) + listed(entry_filter(entries.last()))
    }
}

/// The filter of the list under `key`, its entries under `operator`.
pub open spec fn list_filter(
    members: Seq<(Seq<char>, JsonView)>,
    key: Seq<char>,
    operator: Seq<char>,
) -> Option<JsonView>
    decreases members, 0int,
{
    match json::member_of(members, key) {
        Some(JsonView::Array(entries)) => {
            proof {
                json::lemma_member_is_inside(members, key);
            }
            combined(operator, entries_filters(entries))
        },
        _ => None,
    }
}

/// The filter of a group of conditions: everything under `and`, and something under `or`.
pub open spec fn conditions_filter(conditions: JsonView) -> Option<JsonView>
    decreases conditions, 0int,
{
    match conditions {
        JsonView::Object(members) => combined(
            "And"@,
            listed(list_filter(members, "and"@, "And"@)) + listed(
                list_filter(members, "or"@, "Or"@),
            ),
        ),
        _ => None,
    }
}

/// A comparison of one property with one value.
fn new_leaf(field: &str, operator: &str, key: &str, value: Json) -> (r: Json)
    ensures
        r@ == leaf(field@, operator@, key@, value@),
{
    broadcast use json::lemma_object_view;

    let mut members: Vec<(String, Json)> = new_members();
    put_member(&mut members, "path", single(text_value(field)));
    put_member(&mut members, "operator", text_value(operator));
    put_member(&mut members, key, value);
    Json::Object(members)
}

/// Several filters under one logical operator.
fn new_group(operator: &str, operands: Vec<Json>) -> (r: Json)
    ensures
        r@ == group(operator@, json::items_view(operands@)),
{
    broadcast use {json::lemma_object_view, json::lemma_array_view};

    let mut members: Vec<(String, Json)> = new_members();
    put_member(&mut members, "operator", text_value(operator));
    put_member(&mut members, "operands", Json::Array(operands));
    Json::Object(members)
}

/// No filter for no part, the part itself for one, a group for more.
fn combine(operator: &str, parts: Vec<Json>) -> (r: Option<Json>)
    ensures
        r is Some == combined(operator@, json::items_view(parts@)) is Some,
        r matches Some(f) ==> combined(operator@, json::items_view(parts@)) == Some(f@),
{
    let mut parts: Vec<Json> = parts;
    if parts.len() == 0 {
        None
    } else if parts.len() == 1 {
        assert(json::items_view(parts@)[0] == parts@[0]@);
        parts.pop()
    } else {
        Some(new_group(operator, parts))
    }
}

/// The key under which a value to match is sent.
fn value_key(v: &Json) -> (key: &'static str)
    ensures
        key@ == match_value_key(v@),
{
    match v {
        Json::Text(_) => "valueText",
        Json::Number(_) => if v.as_i64().is_some() {
            "valueInt"
        } else {
            "valueNumber"
        },
        Json::Bool(_) => "valueBoolean",
        _ => "valueText",
    }
}

/// The key under which a bound of a range is sent.
fn bound_key(v: &Json) -> (key: &'static str)
    ensures
        key@ == range_value_key(v@),
{
    if v.as_i64().is_some() {
        "valueInt"
    } else {
        match v {
            Json::Text(_) => "valueText",
            _ => "valueNumber",
        }
    }
}

/// Equality with one of `values`.
fn any_of(field: &str, values: &Vec<Json>) -> (r: Json)
    ensures
        r@ == equals_any(field@, json::items_view(values@)),
{
    if values.len() == 0 {
        let mut operands: Vec<Json> = Vec::new();
        operands.push(new_leaf(field, "Equal", "valueText", text_value(NEVER)));
        operands.push(new_leaf(field, "NotEqual", "valueText", text_value(NEVER)));
        assert(json::items_view(operands@) =~= seq![
            leaf(field@, "Equal"@, "valueText"@, JsonView::Text(NEVER@)),
            leaf(field@, "NotEqual"@, "valueText"@, JsonView::Text(NEVER@)),
        ]);
        return new_group("And", operands);
    }
    if values.len() == 1 {
        return new_leaf(field, "Equal", value_key(&values[0]), values[0].clone());
    }
    let mut operands: Vec<Json> = Vec::new();
    let mut i: usize = 0;
    while i < values.len()
        invariant
            i <= values@.len(),
            operands@.len() == i,
            forall|j: int| 0 <= j < i ==> (#[trigger] operands@[j])@ == equals(field@, values@[j]@),
        decreases values@.len() - i,
    {
        operands.push(new_leaf(field, "Equal", value_key(&values[i]), values[i].clone()));
        i += 1;
    }
    proof {
        let views = json::items_view(values@);
        assert(json::items_view(operands@) =~= Seq::new(
            views.len(),
            |j: int| equals(field@, views[j]),
        ));
    }
    new_group("Or", operands)
}

/// The filter of a `match` condition.
fn match_condition(field: &str, criteria: &Json) -> (r: Option<Json>)
    ensures
        r is Some == match_filter(field@, criteria@) is Some,
        r matches Some(f) ==> match_filter(field@, criteria@) == Some(f@),
{
    if let Some(any) = criteria.get("any") {
        if let Some(values) = any.as_array() {
            return Some(any_of(field, values));
        }
    }
    if let Some(found) = criteria.get("text") {
        if let Some(t) = found.as_str() {
            return Some(new_leaf(field, "Equal", "valueText", text_value(t)));
        }
    }
    match criteria.get("value") {
        Some(v) => match v {
            Json::Text(_) | Json::Number(_) | Json::Bool(_) => Some(
                new_leaf(field, "Equal", value_key(v), v.clone()),
            ),
            _ => None,
        },
        None => None,
    }
}

/// Adds the comparison for the bound called `name`, where there is one.
fn push_bound(parts: &mut Vec<Json>, field: &str, criteria: &Json, name: &str, operator: &str)
    ensures
        json::items_view(final(parts)@) == json::items_view(old(parts)@) + bound_filter(
            field@,
            criteria@,
            name@,
            operator@,
        ),
{
    let ghost before = json::items_view(parts@);
    match criteria.get(name) {
        Some(v) => match v {
            Json::Null => {},
            _ => {
                parts.push(new_leaf(field, operator, bound_key(v), v.clone()));
            },
        },
        None => {},
    }
    assert(json::items_view(parts@) =~= before + bound_filter(
        field@,
        criteria@,
        name@,
        operator@,
    ));
}

/// The filter of a `range` condition.
fn range_condition(field: &str, criteria: &Json) -> (r: Option<Json>)
    ensures
        r is Some == range_filter(field@, criteria@) is Some,
        r matches Some(f) ==> range_filter(field@, criteria@) == Some(f@),
{
    let mut parts: Vec<Json> = Vec::new();
    assert(json::items_view(parts@) =~= Seq::empty());
    push_bound(&mut parts, field, criteria, "lt", "LessThan");
    assert(json::items_view(parts@) =~= bound_filter(field@, criteria@, "lt"@, "LessThan"@));
    push_bound(&mut parts, field, criteria, "gt", "GreaterThan");
    push_bound(&mut parts, field, criteria, "lte", "LessThanEqual");
    push_bound(&mut parts, field, criteria, "gte", "GreaterThanEqual");
    combine("And", parts)
}

/// The double nearest to the number that `digits` writes.
fn new_double(digits: &str) -> (r: Json)
    ensures
        r@ == double_value(digits@),
{
    match double_text(digits) {
        Some(t) => Json::Number(JsonNumber::Float(t)),
        None => Json::Null,
    }
}

/// The double under `key`, where a number stands there.
fn read_double(v: &Json, key: &str) -> (r: Option<Json>)
    ensures
        r is Some == double_under(v@, key@) is Some,
        r matches Some(d) ==> double_under(v@, key@) == Some(d@),
{
    match v.get(key) {
        Some(Json::Number(n)) => Some(
            match n {
                JsonNumber::PosInt(i) => new_double(decimal_text(*i).as_str()),
                JsonNumber::NegInt(i) => new_double(signed_decimal_text(*i).as_str()),
                JsonNumber::Float(t) => Json::Number(JsonNumber::Float(t.clone())),
            },
        ),
        _ => None,
    }
}

/// The filter of a `geo` condition.
fn geo_condition(field: &str, criteria: &Json) -> (r: Option<Json>)
    ensures
        r is Some == geo_filter(field@, criteria@) is Some,
        r matches Some(f) ==> geo_filter(field@, criteria@) == Some(f@),
{
    broadcast use json::lemma_object_view;

    let lat: Json = match read_double(criteria, "lat") {
        Some(v) => v,
        None => return None,
    };
    let lon: Json = match read_double(criteria, "lon") {
        Some(v) => v,
        None => return None,
    };
    let radius: Json = match read_double(criteria, "radius") {
        Some(v) => v,
        None => Json::Number(JsonNumber::Float("1000.0".to_owned())),
    };
    let mut coordinates: Vec<(String, Json)> = new_members();
    put_member(&mut coordinates, "latitude", lat);
    put_member(&mut coordinates, "longitude", lon);
    let mut distance: Vec<(String, Json)> = new_members();
    put_member(&mut distance, "max", radius);
    let mut range: Vec<(String, Json)> = new_members();
    put_member(&mut range, "geoCoordinates", Json::Object(coordinates));
    put_member(&mut range, "distance", Json::Object(distance));
    Some(new_leaf(field, "WithinGeoRange", "valueGeoRange", Json::Object(range)))
}

/// The where-filter of one condition on one field: an exact, listed or full-text `match`, a `range`,
/// or a `geo` radius. Nothing where the condition is of another kind or says nothing that can be
/// searched for.
pub fn build_weaviate_filter(field_name: &str, condition_type: &str, criteria: &Json) -> (r: Option<
    Json,
>)
    ensures
        r is Some == condition_filter(field_name@, condition_type@, criteria@) is Some,
        r matches Some(f) ==> condition_filter(field_name@, condition_type@, criteria@) == Some(f@),
        r is Some == meaning::criterion_says(condition_type@, criteria@),
        r matches Some(f) ==> forall|t: Thing| #[trigger]
            meaning::passes(t, f@) == meaning::criterion_holds(
                t,
                field_name@,
                condition_type@,
                criteria@,
            ),
{
    proof {
        meaning::conditions_let_through_what_meets_them(
            field_name@,
            condition_type@,
            criteria@,
            arbitrary(),
        );
        if let Some(f) = condition_filter(field_name@, condition_type@, criteria@) {
            assert forall|t: Thing| #[trigger]
                meaning::passes(t, f) == meaning::criterion_holds(
                    t,
                    field_name@,
                    condition_type@,
                    criteria@,
                ) by {
                meaning::conditions_let_through_what_meets_them(
                    field_name@,
                    condition_type@,
                    criteria@,
                    t,
                );
            }
        }
    }
    if same_text(condition_type, "match") {
        match_condition(field_name, criteria)
    } else if same_text(condition_type, "range") {
        range_condition(field_name, criteria)
    } else if same_text(condition_type, "geo") {
        geo_condition(field_name, criteria)
    } else {
        None
    }
}

/// Adds the filters of the conditions on one field.
fn push_field(parts: &mut Vec<Json>, field: &str, conditions: &Vec<(String, Json)>)
    ensures
        json::items_view(final(parts)@) == json::items_view(old(parts)@) + field_filters(
            field@,
            json::members_view(conditions@),
        ),
{
    let ghost before = json::items_view(parts@);
    let ghost views = json::members_view(conditions@);
    let mut i: usize = 0;
    assert(before + field_filters(field@, views.take(0)) =~= before);
    while i < conditions.len()
        invariant
            i <= conditions@.len(),
            views == json::members_view(conditions@),
            json::items_view(parts@) == before + field_filters(field@, views.take(i as int)),
        decreases conditions@.len() - i,
    {
        let ghost sofar = json::items_view(parts@);
        let found: Option<Json> = build_weaviate_filter(
            field,
            conditions[i].0.as_str(),
            &conditions[i].1,
        );
        let ghost part: Option<JsonView> = condition_filter(
            field@,
            views[i as int].0,
            views[i as int].1,
        );
        if let Some(f) = found {
            parts.push(f);
        }
        proof {
            assert(json::items_view(parts@) =~= sofar + listed(part));
            assert(views.take(i + 1).drop_last() =~= views.take(i as int));
            assert(json::items_view(parts@) =~= before + field_filters(
                field@,
                views.take(i + 1),
            ));
        }
        i += 1;
    }
    assert(views.take(i as int) =~= views);
}

/// The filters of the conditions on several fields.
fn fields_parts(fields: &Vec<(String, Json)>) -> (parts: Vec<Json>)
    ensures
        json::items_view(parts@) == fields_filters(json::members_view(fields@)),
{
    let ghost views = json::members_view(fields@);
    let mut parts: Vec<Json> = Vec::new();
    let mut i: usize = 0;
    assert(json::items_view(parts@) =~= fields_filters(views.take(0)));
    while i < fields.len()
        invariant
            i <= fields@.len(),
            views == json::members_view(fields@),
            json::items_view(parts@) == fields_filters(views.take(i as int)),
        decreases fields@.len() - i,
    {
        let ghost sofar = json::items_view(parts@);
        proof {
            assert(views.take(i + 1).drop_last() =~= views.take(i as int));
            assert(views.take(i + 1).last() == views[i as int]);
        }
        if let Some(conditions) = fields[i].1.as_object() {
            push_field(&mut parts, fields[i].0.as_str(), conditions);
        }
        assert(json::items_view(parts@) =~= fields_filters(views.take(i + 1)));
        i += 1;
    }
    assert(views.take(i as int) =~= views);
    parts
}

/// The filter of one entry of an `and` or `or` list: a nested group of conditions stays one operand
/// of its parent; the conditions on an entry's fields must all hold.
pub fn build_weaviate_entry_filter(entry: &Json) -> (r: Option<Json>)
    ensures
        r is Some == entry_filter(entry@) is Some,
        r matches Some(f) ==> entry_filter(entry@) == Some(f@),
        r is Some == meaning::entry_says(entry@),
        r matches Some(f) ==> forall|t: Thing| #[trigger]
            meaning::passes(t, f@) == meaning::entry_holds(t, entry@),
    decreases entry, 1int,
{
    proof {
        meaning::entries_let_through_what_is_asked_for(entry@, arbitrary());
        if let Some(f) = entry_filter(entry@) {
            assert forall|t: Thing| #[trigger]
                meaning::passes(t, f) == meaning::entry_holds(t, entry@) by {
                meaning::entries_let_through_what_is_asked_for(entry@, t);
            }
        }
    }
    match entry.as_object() {
        Some(members) => {
            if entry.get("and").is_some() || entry.get("or").is_some() {
                return parse_weaviate_conditions(entry);
            }
            combine("And", fields_parts(members))
        },
        None => None,
    }
}

/// The filter of a list of entries under `operator`.
fn list_condition(entries: &Vec<Json>, operator: &str) -> (r: Option<Json>)
    ensures
        r is Some == combined(operator@, entries_filters(json::items_view(entries@))) is Some,
        r matches Some(f) ==> combined(operator@, entries_filters(json::items_view(entries@)))
            == Some(f@),
    decreases entries, 0int,
{
    let ghost views = json::items_view(entries@);
    let mut parts: Vec<Json> = Vec::new();
    let mut i: usize = 0;
    assert(json::items_view(parts@) =~= entries_filters(views.take(0)));
    while i < entries.len()
        invariant
            i <= entries@.len(),
            views == json::items_view(entries@),
            json::items_view(parts@) == entries_filters(views.take(i as int)),
        decreases entries@.len() - i,
    {
        let ghost sofar = json::items_view(parts@);
        let found: Option<Json> = build_weaviate_entry_filter(&entries[i]);
        if let Some(f) = found {
            parts.push(f);
        }
        proof {
            assert(views.take(i + 1).drop_last() =~= views.take(i as int));
            assert(views.take(i + 1).last() == views[i as int]);
            assert(json::items_view(parts@) =~= sofar + listed(entry_filter(views[i as int])));
        }
        i += 1;
    }
    assert(views.take(i as int) =~= views);
    combine(operator, parts)
}

/// The where-filter of a query's conditions: everything under `and` must hold, and something under
/// `or`. Nothing where the conditions hold nothing that can be searched for.
pub fn parse_weaviate_conditions(conditions: &Json) -> (r: Option<Json>)
    ensures
        r is Some == conditions_filter(conditions@) is Some,
        r matches Some(f) ==> conditions_filter(conditions@) == Some(f@),
        r is Some == meaning::says(conditions@),
        r matches Some(f) ==> meaning::readable(f@) && forall|t: Thing| #[trigger]
            meaning::passes(t, f@) == meaning::holds(t, conditions@),
    decreases conditions, 0int,
{
    proof {
        meaning::filters_let_through_what_is_asked_for(conditions@, arbitrary());
        if let Some(f) = conditions_filter(conditions@) {
            assert forall|t: Thing| #[trigger]
                meaning::passes(t, f) == meaning::holds(t, conditions@) by {
                meaning::filters_let_through_what_is_asked_for(conditions@, t);
            }
        }
    }
    match conditions.as_object() {
        Some(_) => {},
        None => return None,
    }
    let mut parts: Vec<Json> = Vec::new();
    let ghost members = conditions@->Object_0;
    if let Some(list) = conditions.get("and") {
        if let Some(entries) = list.as_array() {
            if let Some(f) = list_condition(entries, "And") {
                parts.push(f);
            }
        }
    }
    assert(json::items_view(parts@) =~= listed(list_filter(members, "and"@, "And"@)));
    let ghost first = json::items_view(parts@);
    if let Some(list) = conditions.get("or") {
        if let Some(entries) = list.as_array() {
            if let Some(f) = list_condition(entries, "Or") {
                parts.push(f);
            }
        }
    }
    assert(json::items_view(parts@) =~= first + listed(list_filter(members, "or"@, "Or"@)));
    combine("And", parts)
}

} // verus!
