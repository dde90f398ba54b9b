//! What query conditions ask of an object, and which objects pass a filter.
//!
//! The two are told apart on purpose: what conditions ask is said of the conditions as a dataset writes
//! them, and what a filter lets through is said of the filter as the server reads it, in either of its
//! forms. That a filter asks for what its conditions ask for is then a theorem.
use vstd::prelude::*;

use crate::json::{self, JsonView, NumberView};
use crate::text;
use crate::weaviate::filters;
use crate::weaviate::grpc::{self, FiltersView, Operator, TestValueView};

verus! {

/// A value as it is compared: whole numbers apart from others, since a server stores them apart.
pub enum Meant {
    Text(Seq<char>),
    Whole(int),
    Number(NumberView),
    Bool(bool),
    Other(JsonView),
}

/// What a value is compared as.
pub open spec fn meant(v: JsonView) -> Meant {
    match v {
        JsonView::Text(t) => Meant::Text(t),
        JsonView::Number(n) => match v.as_int() {
            Some(i) => Meant::Whole(i),
            None => Meant::Number(n),
        },
        JsonView::Bool(b) => Meant::Bool(b),
        _ => Meant::Other(v),
    }
}

/// An object, by what is true of it: which values a property of it equals, is below and is above, and
/// around which places and how far it lies.
pub struct Thing {
    pub equals: spec_fn(Seq<char>, Meant) -> bool,
    pub below: spec_fn(Seq<char>, Meant) -> bool,
    pub above: spec_fn(Seq<char>, Meant) -> bool,
    pub near: spec_fn(Seq<char>, JsonView, JsonView, JsonView) -> bool,
}

// What conditions ask.

/// Whether a criterion of a kind says something that can be searched for: a list of values, a text or one
/// value to match; a bound of a range; the place of a circle.
pub open spec fn criterion_says(kind: Seq<char>, c: JsonView) -> bool {
    ||| kind == "match"@ && (c.member("any"@) matches Some(JsonView::Array(_)))
    ||| kind == "match"@ && (c.member("text"@) matches Some(JsonView::Text(_)))
    ||| kind == "match"@ && (c.member("value"@) matches Some(v) && (v is Text || v is Number
        || v is Bool))
    ||| kind == "range"@ && (bound(c, "lt"@) is Some || bound(c, "lte"@) is Some || bound(
        c,
        "gt"@,
    ) is Some || bound(c, "gte"@) is Some)
    ||| kind == "geo"@ && (c.member("lat"@) matches Some(JsonView::Number(_))) && (c.member(
        "lon"@,
    ) matches Some(JsonView::Number(_)))
}

/// The bound of that name, where there is one.
pub open spec fn bound(c: JsonView, name: Seq<char>) -> Option<Meant> {
    match c.member(name) {
        Some(JsonView::Null) => None,
        Some(v) => Some(meant(v)),
        None => None,
    }
}

/// A number as a double.
pub open spec fn nearest(v: JsonView) -> JsonView {
    match v {
        JsonView::Number(NumberView::Float(t)) => v,
        JsonView::Number(NumberView::PosInt(n)) => written_double(text::decimal(n as nat)),
        JsonView::Number(NumberView::NegInt(n)) => written_double(text::signed_decimal(n as int)),
        _ => JsonView::Null,
    }
}

/// The double that digits write.
pub open spec fn written_double(digits: Seq<char>) -> JsonView {
    match filters::number_as_double(digits) {
        Some(t) => JsonView::Number(NumberView::Float(t)),
        None => JsonView::Null,
    }
}

/// Whether a property of an object meets a criterion: it equals one of the listed values, the text or the
/// value; it is within every bound; it lies within the radius of the place, a thousand where none is given.
pub open spec fn criterion_holds(t: Thing, field: Seq<char>, kind: Seq<char>, c: JsonView) -> bool {
    if kind == "match"@ {
        match (c.member("any"@), c.member("text"@), c.member("value"@)) {
            (Some(JsonView::Array(values)), _, _) => exists|i: int|
                0 <= i < values.len() && (t.equals)(field, meant(#[trigger] values[i])),
            (_, Some(JsonView::Text(s)), _) => (t.equals)(field, Meant::Text(s)),
            (_, _, Some(v)) => (t.equals)(field, meant(v)),
            _ => true,
        }
    } else if kind == "range"@ {
        &&& bound(c, "lt"@) matches Some(v) ==> (t.below)(field, v)
        &&& bound(c, "gt"@) matches Some(v) ==> (t.above)(field, v)
        &&& bound(c, "lte"@) matches Some(v) ==> (t.below)(field, v) || (t.equals)(field, v)
        &&& bound(c, "gte"@) matches Some(v) ==> (t.above)(field, v) || (t.equals)(field, v)
    } else {
        let radius = match c.member("radius"@) {
            Some(JsonView::Number(n)) => nearest(JsonView::Number(n)),
            _ => JsonView::Number(NumberView::Float("1000.0"@)),
        };
        (t.near)(field, nearest(c.member("lat"@)->0), nearest(c.member("lon"@)->0), radius)
    }
}

/// Whether the conditions on a field say something.
pub open spec fn field_says(criteria: Seq<(Seq<char>, JsonView)>) -> bool {
    exists|j: int|
        0 <= j < criteria.len() && criterion_says((#[trigger] criteria[j]).0, criteria[j].1)
}

/// Whether an object meets every condition on a field that says something.
pub open spec fn field_holds(
    t: Thing,
    field: Seq<char>,
    criteria: Seq<(Seq<char>, JsonView)>,
) -> bool {
    forall|j: int|
        0 <= j < criteria.len() && criterion_says((#[trigger] criteria[j]).0, criteria[j].1)
            ==> criterion_holds(t, field, criteria[j].0, criteria[j].1)
}

/// Whether the conditions on some field say something.
pub open spec fn fields_say(fields: Seq<(Seq<char>, JsonView)>) -> bool {
    exists|i: int|
        0 <= i < fields.len() && ((#[trigger] fields[i]).1 matches JsonView::Object(criteria)
            && field_says(criteria))
}

/// Whether an object meets the conditions on every field.
pub open spec fn fields_hold(t: Thing, fields: Seq<(Seq<char>, JsonView)>) -> bool {
    forall|i: int|
        0 <= i < fields.len() ==> ((#[trigger] fields[i]).1 matches JsonView::Object(criteria)
            ==> field_holds(t, fields[i].0, criteria))
}

/// Whether an entry of a list says something: a group of its own, or conditions on fields.
pub open spec fn entry_says(entry: JsonView) -> bool
    decreases entry, 1int,
{
    match entry {
        JsonView::Object(members) => if json::member_of(members, "and"@) is Some
            || json::member_of(members, "or"@) is Some {
            says(entry)
        } else {
            fields_say(members)
        },
        _ => false,
    }
}

/// Whether some entry says something.
pub open spec fn some_say(entries: Seq<JsonView>) -> bool
    decreases entries, 0int,
{
    exists|i: int| 0 <= i < entries.len() && entry_says(#[trigger] entries[i])
}

/// Whether the list under a key says something.
pub open spec fn list_says(members: Seq<(Seq<char>, JsonView)>, key: Seq<char>) -> bool
    decreases members, 0int,
{
    match json::member_of(members, key) {
        Some(JsonView::Array(entries)) => {
            proof {
                json::lemma_member_is_inside(members, key);
            }
            some_say(entries)
        },
        _ => false,
    }
}

/// Whether conditions say something that can be searched for.
pub open spec fn says(conditions: JsonView) -> bool
    decreases conditions, 0int,
{
    match conditions {
        JsonView::Object(members) => list_says(members, "and"@) || list_says(members, "or"@),
        _ => false,
    }
}

/// Whether an object is what an entry asks for.
pub open spec fn entry_holds(t: Thing, entry: JsonView) -> bool
    decreases entry, 1int,
{
    match entry {
        JsonView::Object(members) => if json::member_of(members, "and"@) is Some
            || json::member_of(members, "or"@) is Some {
            holds(t, entry)
        } else {
            fields_hold(t, members)
        },
        _ => true,
    }
}

/// Whether an object is what every entry that says something asks for.
pub open spec fn all_hold(t: Thing, entries: Seq<JsonView>) -> bool
    decreases entries, 0int,
{
    forall|i: int|
        0 <= i < entries.len() && entry_says(#[trigger] entries[i]) ==> entry_holds(t, entries[i])
}

/// Whether an object is what some entry asks for.
pub open spec fn one_holds(t: Thing, entries: Seq<JsonView>) -> bool
    decreases entries, 0int,
{
    exists|i: int|
        0 <= i < entries.len() && entry_says(#[trigger] entries[i]) && entry_holds(t, entries[i])
}

/// Whether an object is what everything under `and` asks for.
pub open spec fn and_holds(t: Thing, members: Seq<(Seq<char>, JsonView)>) -> bool
    decreases members, 0int,
{
    match json::member_of(members, "and"@) {
        Some(JsonView::Array(entries)) => {
            proof {
                json::lemma_member_is_inside(members, "and"@);
            }
            all_hold(t, entries)
        },
        _ => true,
    }
}

/// Whether an object is what something under `or` asks for, where something is asked for there.
pub open spec fn or_holds(t: Thing, members: Seq<(Seq<char>, JsonView)>) -> bool
    decreases members, 0int,
{
    match json::member_of(members, "or"@) {
        Some(JsonView::Array(entries)) => {
            proof {
                json::lemma_member_is_inside(members, "or"@);
            }
            some_say(entries) ==> one_holds(t, entries)
        },
        _ => true,
    }
}

/// Whether an object is what conditions ask for.
pub open spec fn holds(t: Thing, conditions: JsonView) -> bool
    decreases conditions, 0int,
{
    match conditions {
        JsonView::Object(members) => and_holds(t, members) && or_holds(t, members),
        _ => true,
    }
}

// What a where-filter lets through.

/// The property that a comparison is on.
pub open spec fn compared_property(filter: JsonView) -> Option<Seq<char>> {
    match filter.member("path"@) {
        Some(JsonView::Array(path)) => if path.len() == 1 {
            path[0].text()
        } else {
            None
        },
        _ => None,
    }
}

/// The value that a comparison carries, under the key for its kind. Nothing where the kinds do not fit.
pub open spec fn carried(filter: JsonView) -> Option<Meant> {
    match (
        filter.member("valueText"@),
        filter.member("valueInt"@),
        filter.member("valueNumber"@),
        filter.member("valueBoolean"@),
    ) {
        (Some(v), None, None, None) => if v is Number || v is Bool {
            None
        } else {
            Some(meant(v))
        },
        (None, Some(v), None, None) => match v.as_int() {
            Some(i) => Some(Meant::Whole(i)),
            None => None,
        },
        (None, None, Some(v), None) => match v {
            JsonView::Number(n) => Some(Meant::Number(n)),
            JsonView::Text(_) => None,
            _ => Some(meant(v)),
        },
        (None, None, None, Some(v)) => match v {
            JsonView::Bool(b) => Some(Meant::Bool(b)),
            _ => None,
        },
        _ => None,
    }
}

/// Whether a property of an object stands to a value as an operator says.
pub open spec fn compares(t: Thing, operator: Seq<char>, field: Seq<char>, v: Meant) -> bool {
    ||| operator == "Equal"@ && (t.equals)(field, v)
    ||| operator == "NotEqual"@ && !(t.equals)(field, v)
    ||| operator == "LessThan"@ && (t.below)(field, v)
    ||| operator == "LessThanEqual"@ && ((t.below)(field, v) || (t.equals)(field, v))
    ||| operator == "GreaterThan"@ && (t.above)(field, v)
    ||| operator == "GreaterThanEqual"@ && ((t.above)(field, v) || (t.equals)(field, v))
}

/// Whether an object lies within the circle that a filter carries.
pub open spec fn lies_within(t: Thing, field: Seq<char>, filter: JsonView) -> bool {
    &&& filter.member("valueGeoRange"@) matches Some(range)
    &&& range.member("geoCoordinates"@) matches Some(place)
    &&& range.member("distance"@) matches Some(distance)
    &&& place.member("latitude"@) matches Some(lat)
    &&& place.member("longitude"@) matches Some(lon)
    &&& distance.member("max"@) matches Some(radius)
    &&& (t.near)(field, lat, lon, radius)
}

/// Whether an object passes a where-filter: every operand of an `And`, some operand of an `Or`, or a
/// comparison of one of its properties.
pub open spec fn passes(t: Thing, filter: JsonView) -> bool
    decreases filter, 1int,
{
    match filter {
        JsonView::Object(members) => match (
            json::member_of(members, "operator"@),
            json::member_of(members, "operands"@),
        ) {
            (Some(JsonView::Text(operator)), Some(JsonView::Array(operands))) => {
                proof {
                    json::lemma_member_is_inside(members, "operands"@);
                }
                ||| operator == "And"@ && all_pass(t, operands)
                ||| operator == "Or"@ && one_passes(t, operands)
            },
            (Some(JsonView::Text(operator)), _) => match compared_property(filter) {
                Some(field) => if operator == "WithinGeoRange"@ {
                    lies_within(t, field, filter)
                } else {
                    carried(filter) matches Some(v) && compares(t, operator, field, v)
                },
                None => false,
            },
            _ => false,
        },
        _ => false,
    }
}

/// Whether an object passes every filter.
pub open spec fn all_pass(t: Thing, parts: Seq<JsonView>) -> bool
    decreases parts, 0int,
{
    forall|i: int| 0 <= i < parts.len() ==> passes(t, #[trigger] parts[i])
}

/// Whether an object passes some filter.
pub open spec fn one_passes(t: Thing, parts: Seq<JsonView>) -> bool
    decreases parts, 0int,
{
    exists|i: int| 0 <= i < parts.len() && passes(t, #[trigger] parts[i])
}

/// Whether every comparison of a where-filter can be read: it names one property and carries a value under
/// the key for its kind, or a circle.
pub open spec fn readable(filter: JsonView) -> bool
    decreases filter, 1int,
{
    match filter {
        JsonView::Object(members) => match (
            json::member_of(members, "operator"@),
            json::member_of(members, "operands"@),
        ) {
            (Some(JsonView::Text(_)), Some(JsonView::Array(operands))) => {
                proof {
                    json::lemma_member_is_inside(members, "operands"@);
                }
                all_readable(operands)
            },
            (Some(JsonView::Text(operator)), _) => compared_property(filter) is Some && (operator
                == "WithinGeoRange"@ || carried(filter) is Some),
            _ => false,
        },
        _ => false,
    }
}

/// Whether every filter can be read.
pub open spec fn all_readable(parts: Seq<JsonView>) -> bool
    decreases parts, 0int,
{
    forall|i: int| 0 <= i < parts.len() ==> readable(#[trigger] parts[i])
}

// What a filter message lets through.

/// The value that a message carries.
pub open spec fn message_value(v: TestValueView) -> Option<Meant> {
    match v {
        TestValueView::ValueText(t) => Some(Meant::Text(t)),
        TestValueView::ValueInt(n) => Some(Meant::Whole(n as int)),
        TestValueView::ValueNumber(n) => Some(Meant::Number(n)),
        TestValueView::ValueBoolean(b) => Some(Meant::Bool(b)),
        _ => None,
    }
}

/// Whether an object passes a comparison of a filter message.
pub open spec fn message_compares(
    t: Thing,
    operator: Operator,
    field: Seq<char>,
    v: TestValueView,
) -> bool {
    match (operator, v, message_value(v)) {
        (
            Operator::WithinGeoRange,
            TestValueView::ValueGeo { latitude, longitude, distance },
            _,
        ) => (t.near)(
            field,
            JsonView::Number(latitude),
            JsonView::Number(longitude),
            JsonView::Number(distance),
        ),
        (Operator::Equal, _, Some(m)) => (t.equals)(field, m),
        (Operator::NotEqual, _, Some(m)) => !(t.equals)(field, m),
        (Operator::LessThan, _, Some(m)) => (t.below)(field, m),
        (Operator::LessThanEqual, _, Some(m)) => (t.below)(field, m) || (t.equals)(field, m),
        (Operator::GreaterThan, _, Some(m)) => (t.above)(field, m),
        (Operator::GreaterThanEqual, _, Some(m)) => (t.above)(field, m) || (t.equals)(field, m),
        _ => false,
    }
}

/// Whether an object passes a filter message.
pub open spec fn message_passes(t: Thing, f: FiltersView) -> bool
    decreases f,
{
    match f.operator {
        Operator::And => forall|i: int|
            0 <= i < f.filters.len() ==> message_passes(t, #[trigger] f.filters[i]),
        Operator::Or => exists|i: int|
            0 <= i < f.filters.len() && message_passes(t, #[trigger] f.filters[i]),
        _ => match (f.target, f.test_value) {
            (Some(field), Some(v)) => message_compares(t, f.operator, field, v),
            _ => false,
        },
    }
}

// A filter lets through what its conditions ask for.

/// The names of the members of a filter are different.
proof fn lemma_names()
    ensures
        "path"@ != "operator"@,
        "path"@ != "operands"@,
        "operator"@ != "operands"@,
        forall|key: Seq<char>|
            #![trigger is_value_key(key)]
            is_value_key(key) ==> key != "path"@ && key != "operator"@ && key != "operands"@,
        "valueText"@ != "valueInt"@,
        "valueText"@ != "valueNumber"@,
        "valueText"@ != "valueBoolean"@,
        "valueText"@ != "valueGeoRange"@,
        "valueInt"@ != "valueNumber"@,
        "valueInt"@ != "valueBoolean"@,
        "valueInt"@ != "valueGeoRange"@,
        "valueNumber"@ != "valueBoolean"@,
        "valueNumber"@ != "valueGeoRange"@,
        "valueBoolean"@ != "valueGeoRange"@,
{
    reveal_strlit("path");
    reveal_strlit("operator");
    reveal_strlit("operands");
    reveal_strlit("valueText");
    reveal_strlit("valueInt");
    reveal_strlit("valueNumber");
    reveal_strlit("valueBoolean");
    reveal_strlit("valueGeoRange");
    assert("path"@.len() == 4);
    assert("operator"@.len() == 8);
    assert("operands"@.len() == 8);
    assert("valueText"@.len() == 9);
    assert("valueInt"@.len() == 8);
    assert("valueNumber"@.len() == 11);
    assert("valueBoolean"@.len() == 12);
    assert("valueGeoRange"@.len() == 13);
    assert("operator"@[5] != "operands"@[5]);
    assert("valueInt"@[0] != "operator"@[0]);
    assert("valueInt"@[0] != "operands"@[0]);
}

/// Whether a member of that name holds the value of a comparison.
spec fn is_value_key(key: Seq<char>) -> bool {
    key == "valueText"@ || key == "valueInt"@ || key == "valueNumber"@ || key == "valueBoolean"@ || key
        == "valueGeoRange"@
}

/// The operators are different.
proof fn lemma_operators()
    ensures
        "And"@ != "Or"@,
        "Equal"@ != "NotEqual"@,
        "Equal"@ != "LessThan"@,
        "Equal"@ != "LessThanEqual"@,
        "Equal"@ != "GreaterThan"@,
        "Equal"@ != "GreaterThanEqual"@,
        "Equal"@ != "WithinGeoRange"@,
        "NotEqual"@ != "LessThan"@,
        "NotEqual"@ != "LessThanEqual"@,
        "NotEqual"@ != "GreaterThan"@,
        "NotEqual"@ != "GreaterThanEqual"@,
        "NotEqual"@ != "WithinGeoRange"@,
        "LessThan"@ != "LessThanEqual"@,
        "LessThan"@ != "GreaterThan"@,
        "LessThan"@ != "GreaterThanEqual"@,
        "LessThan"@ != "WithinGeoRange"@,
        "LessThanEqual"@ != "GreaterThan"@,
        "LessThanEqual"@ != "GreaterThanEqual"@,
        "LessThanEqual"@ != "WithinGeoRange"@,
        "GreaterThan"@ != "GreaterThanEqual"@,
        "GreaterThan"@ != "WithinGeoRange"@,
        "GreaterThanEqual"@ != "WithinGeoRange"@,
        "match"@ != "range"@,
        "match"@ != "geo"@,
        "range"@ != "geo"@,
{
    reveal_strlit("And");
    reveal_strlit("Or");
    reveal_strlit("Equal");
    reveal_strlit("NotEqual");
    reveal_strlit("LessThan");
    reveal_strlit("LessThanEqual");
    reveal_strlit("GreaterThan");
    reveal_strlit("GreaterThanEqual");
    reveal_strlit("WithinGeoRange");
    reveal_strlit("match");
    reveal_strlit("range");
    reveal_strlit("geo");
    assert("And"@.len() == 3);
    assert("Or"@.len() == 2);
    assert("Equal"@.len() == 5);
    assert("NotEqual"@.len() == 8);
    assert("LessThan"@.len() == 8);
    assert("LessThanEqual"@.len() == 13);
    assert("GreaterThan"@.len() == 11);
    assert("GreaterThanEqual"@.len() == 16);
    assert("WithinGeoRange"@.len() == 14);
    assert("match"@.len() == 5);
    assert("range"@.len() == 5);
    assert("geo"@.len() == 3);
    assert("NotEqual"@[0] != "LessThan"@[0]);
    assert("match"@[0] != "range"@[0]);
}

/// What stands in a comparison.
proof fn lemma_leaf(field: Seq<char>, operator: Seq<char>, key: Seq<char>, value: JsonView)
    requires
        is_value_key(key),
    ensures
        ({
            let f = filters::leaf(field, operator, key, value);
            &&& f is Object
            &&& f.member("operator"@) == Some(JsonView::Text(operator))
            &&& f.member("operands"@) is None
            &&& compared_property(f) == Some(field)
            &&& forall|other: Seq<char>|
                #![trigger f.member(other)]
                is_value_key(other) ==> f.member(other) == if other == key {
                    Some(value)
                } else {
                    None
                }
        }),
{
    broadcast use json::put_then_member;

    lemma_names();
    let f = filters::leaf(field, operator, key, value);
    assert(f.member("path"@) == Some(JsonView::Array(seq![JsonView::Text(field)])));
}

/// An object passes a comparison where its property stands to the value as the operator says.
proof fn lemma_comparison(
    t: Thing,
    field: Seq<char>,
    operator: Seq<char>,
    key: Seq<char>,
    value: JsonView,
)
    requires
        key == filters::match_value_key(value) || key == filters::range_value_key(value) && !(
        value is Null),
        operator != "WithinGeoRange"@,
    ensures
        passes(t, filters::leaf(field, operator, key, value)) == compares(
            t,
            operator,
            field,
            meant(value),
        ),
        readable(filters::leaf(field, operator, key, value)),
{
    lemma_names();
    lemma_leaf(field, operator, key, value);
    let f = filters::leaf(field, operator, key, value);
    assert(is_value_key("valueText"@) && is_value_key("valueInt"@) && is_value_key("valueNumber"@)
        && is_value_key("valueBoolean"@));
    assert(f.member("valueText"@) is Some == (key == "valueText"@));
    assert(f.member("valueInt"@) is Some == (key == "valueInt"@));
    assert(f.member("valueNumber"@) is Some == (key == "valueNumber"@));
    assert(f.member("valueBoolean"@) is Some == (key == "valueBoolean"@));
    assert(carried(f) == Some(meant(value)));
}

/// An object passes a group where it passes all of it, or some of it.
proof fn lemma_group(t: Thing, operands: Seq<JsonView>)
    ensures
        passes(t, filters::group("And"@, operands)) == all_pass(t, operands),
        passes(t, filters::group("Or"@, operands)) == one_passes(t, operands),
        readable(filters::group("And"@, operands)) == all_readable(operands),
        readable(filters::group("Or"@, operands)) == all_readable(operands),
{
    broadcast use json::put_then_member;

    lemma_names();
    lemma_operators();
    let both = filters::group("And"@, operands);
    assert(both.member("operator"@) == Some(JsonView::Text("And"@)));
    assert(both.member("operands"@) == Some(JsonView::Array(operands)));
    let either = filters::group("Or"@, operands);
    assert(either.member("operator"@) == Some(JsonView::Text("Or"@)));
    assert(either.member("operands"@) == Some(JsonView::Array(operands)));
}

/// What is combined under an operator lets through what all of it, or some of it, does.
proof fn lemma_combined(t: Thing, parts: Seq<JsonView>)
    ensures
        filters::combined("And"@, parts) is Some == (parts.len() > 0),
        filters::combined("Or"@, parts) is Some == (parts.len() > 0),
        filters::combined("And"@, parts) matches Some(f) ==> passes(t, f) == all_pass(t, parts),
        filters::combined("Or"@, parts) matches Some(f) ==> passes(t, f) == one_passes(t, parts),
        all_readable(parts) ==> (filters::combined("And"@, parts) matches Some(f) ==> readable(f)),
        all_readable(parts) ==> (filters::combined("Or"@, parts) matches Some(f) ==> readable(f)),
{
    lemma_group(t, parts);
    if parts.len() == 1 {
        assert(passes(t, parts[0]) == all_pass(t, parts));
        assert(passes(t, parts[0]) == one_passes(t, parts)) by {
            if one_passes(t, parts) {
                let i = choose|i: int| 0 <= i < parts.len() && passes(t, #[trigger] parts[i]);
                assert(i == 0);
            }
        }
    }
}

/// All of two lists pass where all of each does, and some of two lists where some of one does.
proof fn lemma_joined(t: Thing, a: Seq<JsonView>, b: Seq<JsonView>)
    ensures
        all_pass(t, a + b) == (all_pass(t, a) && all_pass(t, b)),
        one_passes(t, a + b) == (one_passes(t, a) || one_passes(t, b)),
        all_readable(a) && all_readable(b) ==> all_readable(a + b),
{
    let both = a + b;
    assert forall|i: int| 0 <= i < a.len() implies #[trigger] both[i] == a[i] by {}
    assert forall|i: int| 0 <= i < b.len() implies #[trigger] both[a.len() + i] == b[i] by {}
    if all_pass(t, both) {
        assert forall|i: int| 0 <= i < a.len() implies passes(t, #[trigger] a[i]) by {
            assert(both[i] == a[i]);
        }
        assert forall|i: int| 0 <= i < b.len() implies passes(t, #[trigger] b[i]) by {
            assert(both[a.len() + i] == b[i]);
        }
    }
    if all_pass(t, a) && all_pass(t, b) {
        assert forall|i: int| 0 <= i < both.len() implies passes(t, #[trigger] both[i]) by {
            if i < a.len() {
                assert(passes(t, a[i]));
            } else {
                assert(passes(t, b[i - a.len()]));
            }
        }
    }
    if all_readable(a) && all_readable(b) {
        assert forall|i: int| 0 <= i < both.len() implies readable(#[trigger] both[i]) by {
            if i < a.len() {
                assert(readable(a[i]));
            } else {
                assert(readable(b[i - a.len()]));
            }
        }
    }
    if one_passes(t, both) {
        let i = choose|i: int| 0 <= i < both.len() && passes(t, #[trigger] both[i]);
        if i < a.len() {
            assert(passes(t, a[i]));
        } else {
            assert(passes(t, b[i - a.len()]));
        }
    }
    if one_passes(t, a) {
        let i = choose|i: int| 0 <= i < a.len() && passes(t, #[trigger] a[i]);
        assert(passes(t, both[i]));
    }
    if one_passes(t, b) {
        let i = choose|i: int| 0 <= i < b.len() && passes(t, #[trigger] b[i]);
        assert(passes(t, both[a.len() + i]));
    }
}

/// The same of a part that is there or not.
proof fn lemma_listed(t: Thing, part: Option<JsonView>)
    ensures
        all_pass(t, filters::listed(part)) == (part matches Some(p) ==> passes(t, p)),
        one_passes(t, filters::listed(part)) == (part matches Some(p) && passes(t, p)),
        filters::listed(part).len() > 0 <==> part is Some,
        all_readable(filters::listed(part)) == (part matches Some(p) ==> readable(p)),
{
    if let Some(p) = part {
        let list = seq![p];
        assert(list[0] == p);
    }
}

/// A bound is passed by what is within it.
proof fn lemma_bound(t: Thing, field: Seq<char>, c: JsonView, name: Seq<char>, operator: Seq<char>)
    requires
        operator != "WithinGeoRange"@,
    ensures
        filters::bound_filter(field, c, name, operator).len() > 0 <==> bound(c, name) is Some,
        all_pass(t, filters::bound_filter(field, c, name, operator)) == (bound(
            c,
            name,
        ) matches Some(v) ==> compares(t, operator, field, v)),
        all_readable(filters::bound_filter(field, c, name, operator)),
{
    if let Some(v) = c.member(name) {
        if !(v is Null) {
            let key = filters::range_value_key(v);
            lemma_comparison(t, field, operator, key, v);
            let f = filters::leaf(field, operator, key, v);
            assert(filters::bound_filter(field, c, name, operator) == seq![f]);
            assert(seq![f][0] == f);
            assert(bound(c, name) == Some(meant(v)));
        }
    }
}

/// The filter of a criterion is there where it says something, and is passed by what meets it.
proof fn lemma_criterion(t: Thing, field: Seq<char>, kind: Seq<char>, c: JsonView)
    ensures
        filters::condition_filter(field, kind, c) is Some == criterion_says(kind, c),
        filters::condition_filter(field, kind, c) matches Some(f) ==> passes(t, f)
            == criterion_holds(t, field, kind, c) && readable(f),
{
    lemma_operators();
    lemma_names();
    if kind == "match"@ {
        lemma_match(t, field, c);
    } else if kind == "range"@ {
        let lt = filters::bound_filter(field, c, "lt"@, "LessThan"@);
        let gt = filters::bound_filter(field, c, "gt"@, "GreaterThan"@);
        let lte = filters::bound_filter(field, c, "lte"@, "LessThanEqual"@);
        let gte = filters::bound_filter(field, c, "gte"@, "GreaterThanEqual"@);
        lemma_bound(t, field, c, "lt"@, "LessThan"@);
        lemma_bound(t, field, c, "gt"@, "GreaterThan"@);
        lemma_bound(t, field, c, "lte"@, "LessThanEqual"@);
        lemma_bound(t, field, c, "gte"@, "GreaterThanEqual"@);
        lemma_joined(t, lt, gt);
        lemma_joined(t, lt + gt, lte);
        lemma_joined(t, lt + gt + lte, gte);
        lemma_combined(t, lt + gt + lte + gte);
    } else if kind == "geo"@ {
        lemma_geo(t, field, c);
    }
}

/// The same of a criterion to match.
proof fn lemma_match(t: Thing, field: Seq<char>, c: JsonView)
    ensures
        filters::match_filter(field, c) is Some == criterion_says("match"@, c),
        filters::match_filter(field, c) matches Some(f) ==> passes(t, f) == criterion_holds(
            t,
            field,
            "match"@,
            c,
        ) && readable(f),
{
    lemma_operators();
    match (c.member("any"@), c.member("text"@), c.member("value"@)) {
        (Some(JsonView::Array(values)), _, _) => {
            lemma_alternatives(t, field, values);
        },
        (_, Some(JsonView::Text(s)), _) => {
            lemma_comparison(t, field, "Equal"@, "valueText"@, JsonView::Text(s));
        },
        (_, _, Some(v)) => {
            lemma_comparison(t, field, "Equal"@, filters::match_value_key(v), v);
        },
        _ => {},
    }
}

/// A list of alternatives is passed by what equals one of them; nothing passes a list of none.
proof fn lemma_alternatives(t: Thing, field: Seq<char>, values: Seq<JsonView>)
    ensures
        passes(t, filters::equals_any(field, values)) == exists|i: int|
            0 <= i < values.len() && (t.equals)(field, meant(#[trigger] values[i])),
        readable(filters::equals_any(field, values)),
{
    lemma_operators();
    if values.len() == 0 {
        let text = JsonView::Text(filters::NEVER@);
        let parts = seq![
            filters::leaf(field, "Equal"@, "valueText"@, text),
            filters::leaf(field, "NotEqual"@, "valueText"@, text),
        ];
        lemma_comparison(t, field, "Equal"@, "valueText"@, text);
        lemma_comparison(t, field, "NotEqual"@, "valueText"@, text);
        lemma_group(t, parts);
        assert(passes(t, parts[0]) != passes(t, parts[1]));
        assert(all_readable(parts));
    } else {
        assert forall|i: int| 0 <= i < values.len() implies passes(
            t,
            filters::equals(field, #[trigger] values[i]),
        ) == (t.equals)(field, meant(values[i])) && readable(filters::equals(field, values[i])) by {
            lemma_comparison(t, field, "Equal"@, filters::match_value_key(values[i]), values[i]);
        }
        if values.len() == 1 {
            assert(passes(t, filters::equals(field, values[0])) == (t.equals)(
                field,
                meant(values[0]),
            ));
        } else {
            let parts = Seq::new(values.len(), |i: int| filters::equals(field, values[i]));
            lemma_group(t, parts);
            assert forall|i: int| 0 <= i < parts.len() implies readable(#[trigger] parts[i]) by {
                assert(readable(filters::equals(field, values[i])));
            }
            if one_passes(t, parts) {
                let i = choose|i: int| 0 <= i < parts.len() && passes(t, #[trigger] parts[i]);
                assert((t.equals)(field, meant(values[i])));
            }
            if exists|i: int| 0 <= i < values.len() && (t.equals)(field, meant(#[trigger] values[i])) {
                let i = choose|i: int|
                    0 <= i < values.len() && (t.equals)(field, meant(#[trigger] values[i]));
                assert(passes(t, parts[i]));
            }
        }
    }
}

/// The same of a circle.
proof fn lemma_geo(t: Thing, field: Seq<char>, c: JsonView)
    ensures
        filters::geo_filter(field, c) is Some == criterion_says("geo"@, c),
        filters::geo_filter(field, c) matches Some(f) ==> passes(t, f) == criterion_holds(
            t,
            field,
            "geo"@,
            c,
        ) && readable(f),
{
    broadcast use json::put_then_member;

    lemma_operators();
    lemma_names();
    reveal_strlit("latitude");
    reveal_strlit("longitude");
    reveal_strlit("geoCoordinates");
    reveal_strlit("distance");
    assert("latitude"@.len() == 8);
    assert("longitude"@.len() == 9);
    assert("geoCoordinates"@.len() == 14);
    assert("distance"@.len() == 8);
    if let Some(f) = filters::geo_filter(field, c) {
        let range = f.member("valueGeoRange"@);
        let lat = filters::double_under(c, "lat"@)->0;
        let lon = filters::double_under(c, "lon"@)->0;
        let radius = match filters::double_under(c, "radius"@) {
            Some(r) => r,
            None => JsonView::Number(NumberView::Float("1000.0"@)),
        };
        let coordinates = json::put(
            json::put(json::no_members(), "latitude"@, lat),
            "longitude"@,
            lon,
        );
        let distance = json::put(json::no_members(), "max"@, radius);
        let members = json::put(
            json::put(json::no_members(), "geoCoordinates"@, JsonView::Object(coordinates)),
            "distance"@,
            JsonView::Object(distance),
        );
        lemma_leaf(field, "WithinGeoRange"@, "valueGeoRange"@, JsonView::Object(members));
        assert(is_value_key("valueGeoRange"@));
        assert(f == filters::leaf(
            field,
            "WithinGeoRange"@,
            "valueGeoRange"@,
            JsonView::Object(members),
        ));
        assert(range == Some(JsonView::Object(members)));
        assert(range->0.member("geoCoordinates"@) == Some(JsonView::Object(coordinates)));
        assert(range->0.member("distance"@) == Some(JsonView::Object(distance)));
        assert(JsonView::Object(coordinates).member("latitude"@) == Some(lat));
        assert(JsonView::Object(coordinates).member("longitude"@) == Some(lon));
        assert(JsonView::Object(distance).member("max"@) == Some(radius));
        assert(passes(t, f) == (t.near)(field, lat, lon, radius));
        assert(nearest(c.member("lat"@)->0) == lat);
        assert(nearest(c.member("lon"@)->0) == lon);
    }
}

/// The filters of the conditions on one field.
proof fn lemma_field(t: Thing, field: Seq<char>, criteria: Seq<(Seq<char>, JsonView)>)
    ensures
        filters::field_filters(field, criteria).len() > 0 <==> field_says(criteria),
        all_pass(t, filters::field_filters(field, criteria)) == field_holds(t, field, criteria),
        all_readable(filters::field_filters(field, criteria)),
    decreases criteria.len(),
{
    if criteria.len() > 0 {
        let front = criteria.drop_last();
        let (kind, c) = criteria.last();
        let earlier = filters::field_filters(field, front);
        let part = filters::condition_filter(field, kind, c);
        lemma_field(t, field, front);
        lemma_criterion(t, field, kind, c);
        lemma_listed(t, part);
        lemma_joined(t, earlier, filters::listed(part));
        let n = front.len() as int;
        assert(criteria[n] == (kind, c));
        assert forall|j: int| 0 <= j < n implies #[trigger] criteria[j] == front[j] by {}
        if field_says(front) {
            let j = choose|j: int|
                0 <= j < front.len() && criterion_says((#[trigger] front[j]).0, front[j].1);
            assert(criterion_says(criteria[j].0, criteria[j].1));
        }
        if field_says(criteria) && !criterion_says(kind, c) {
            let j = choose|j: int|
                0 <= j < criteria.len() && criterion_says(
                    (#[trigger] criteria[j]).0,
                    criteria[j].1,
                );
            assert(criterion_says(front[j].0, front[j].1));
        }
        if field_holds(t, field, criteria) {
            assert forall|j: int|
                0 <= j < front.len() && criterion_says(
                    (#[trigger] front[j]).0,
                    front[j].1,
                ) implies criterion_holds(t, field, front[j].0, front[j].1) by {
                assert(criteria[j] == front[j]);
            }
        }
    }
}

/// The filters of the conditions on several fields.
proof fn lemma_fields(t: Thing, fields: Seq<(Seq<char>, JsonView)>)
    ensures
        filters::fields_filters(fields).len() > 0 <==> fields_say(fields),
        all_pass(t, filters::fields_filters(fields)) == fields_hold(t, fields),
        all_readable(filters::fields_filters(fields)),
    decreases fields.len(),
{
    if fields.len() > 0 {
        let front = fields.drop_last();
        let (field, v) = fields.last();
        let earlier = filters::fields_filters(front);
        let parts = match v {
            JsonView::Object(criteria) => filters::field_filters(field, criteria),
            _ => Seq::empty(),
        };
        lemma_fields(t, front);
        if let JsonView::Object(criteria) = v {
            lemma_field(t, field, criteria);
        }
        lemma_joined(t, earlier, parts);
        let n = front.len() as int;
        assert(fields[n] == (field, v));
        assert forall|j: int| 0 <= j < n implies #[trigger] fields[j] == front[j] by {}
        if fields_say(front) {
            let j = choose|j: int|
                0 <= j < front.len() && ((#[trigger] front[j]).1 matches JsonView::Object(criteria)
                    && field_says(criteria));
            assert(fields[j] == front[j]);
        }
        if fields_say(fields) {
            let j = choose|j: int|
                0 <= j < fields.len() && ((#[trigger] fields[j]).1 matches JsonView::Object(criteria)
                    && field_says(criteria));
            if j < n {
                assert(fields[j] == front[j]);
            }
        }
        if fields_hold(t, fields) {
            assert forall|j: int| 0 <= j < front.len() implies (
            (#[trigger] front[j]).1 matches JsonView::Object(criteria) ==> field_holds(
                t,
                front[j].0,
                criteria,
            )) by {
                assert(fields[j] == front[j]);
            }
        }
    }
}

/// The filter of an entry.
proof fn lemma_entry(t: Thing, entry: JsonView)
    ensures
        filters::entry_filter(entry) is Some == entry_says(entry),
        filters::entry_filter(entry) matches Some(f) ==> passes(t, f) == entry_holds(t, entry)
            && readable(f),
    decreases entry, 1int,
{
    if let JsonView::Object(members) = entry {
        if json::member_of(members, "and"@) is Some || json::member_of(members, "or"@) is Some {
            lemma_conditions(t, entry);
        } else {
            lemma_fields(t, members);
            lemma_combined(t, filters::fields_filters(members));
        }
    }
}

/// The filters of the entries of a list.
proof fn lemma_entries(t: Thing, entries: Seq<JsonView>)
    ensures
        filters::entries_filters(entries).len() > 0 <==> some_say(entries),
        all_pass(t, filters::entries_filters(entries)) == all_hold(t, entries),
        one_passes(t, filters::entries_filters(entries)) == one_holds(t, entries),
        all_readable(filters::entries_filters(entries)),
    decreases entries, 0int,
{
    if entries.len() > 0 {
        let front = entries.drop_last();
        let entry = entries.last();
        let part = filters::entry_filter(entry);
        lemma_entries(t, front);
        lemma_entry(t, entry);
        lemma_listed(t, part);
        lemma_joined(t, filters::entries_filters(front), filters::listed(part));
        let n = front.len() as int;
        assert(entries[n] == entry);
        assert forall|j: int| 0 <= j < n implies #[trigger] entries[j] == front[j] by {}
        if some_say(front) {
            let j = choose|j: int| 0 <= j < front.len() && entry_says(#[trigger] front[j]);
            assert(entry_says(entries[j]));
        }
        if some_say(entries) && !entry_says(entry) {
            let j = choose|j: int| 0 <= j < entries.len() && entry_says(#[trigger] entries[j]);
            assert(entry_says(front[j]));
        }
        if all_hold(t, entries) {
            assert forall|j: int| 0 <= j < front.len() && entry_says(#[trigger] front[j]) implies entry_holds(
                t,
                front[j],
            ) by {
                assert(entries[j] == front[j]);
            }
        }
        if one_holds(t, front) {
            let j = choose|j: int|
                0 <= j < front.len() && entry_says(#[trigger] front[j]) && entry_holds(t, front[j]);
            assert(entry_says(entries[j]));
        }
        if one_holds(t, entries) && !(entry_says(entry) && entry_holds(t, entry)) {
            let j = choose|j: int|
                0 <= j < entries.len() && entry_says(#[trigger] entries[j]) && entry_holds(
                    t,
                    entries[j],
                );
            assert(entry_says(front[j]));
        }
    }
}

/// The filter of conditions.
proof fn lemma_conditions(t: Thing, conditions: JsonView)
    ensures
        filters::conditions_filter(conditions) is Some == says(conditions),
        filters::conditions_filter(conditions) matches Some(f) ==> passes(t, f) == holds(
            t,
            conditions,
        ) && readable(f),
    decreases conditions, 0int,
{
    if let JsonView::Object(members) = conditions {
        let both = filters::list_filter(members, "and"@, "And"@);
        let either = filters::list_filter(members, "or"@, "Or"@);
        if let Some(JsonView::Array(entries)) = json::member_of(members, "and"@) {
            json::lemma_member_is_inside(members, "and"@);
            lemma_entries(t, entries);
            lemma_combined(t, filters::entries_filters(entries));
            assert(all_pass(t, filters::listed(both)) == and_holds(t, members)) by {
                lemma_listed(t, both);
                if both is None {
                    assert(filters::entries_filters(entries) =~= Seq::empty());
                }
            }
        }
        if let Some(JsonView::Array(entries)) = json::member_of(members, "or"@) {
            json::lemma_member_is_inside(members, "or"@);
            lemma_entries(t, entries);
            lemma_combined(t, filters::entries_filters(entries));
            assert(all_pass(t, filters::listed(either)) == or_holds(t, members)) by {
                lemma_listed(t, either);
            }
        }
        lemma_listed(t, both);
        lemma_listed(t, either);
        lemma_joined(t, filters::listed(both), filters::listed(either));
        lemma_combined(t, filters::listed(both) + filters::listed(either));
    }
}

/// A query's filter lets an object through exactly where the object is what the query's conditions ask
/// for: everything under `and`, something under `or`, at every depth. There is a filter exactly where the
/// conditions say something that can be searched for, and every comparison of it can be read.
pub proof fn filters_let_through_what_is_asked_for(conditions: JsonView, t: Thing)
    ensures
        filters::conditions_filter(conditions) is Some <==> says(conditions),
        filters::conditions_filter(conditions) matches Some(f) ==> (passes(t, f) <==> holds(
            t,
            conditions,
        )) && readable(f),
{
    lemma_conditions(t, conditions);
}

/// The same of one entry of a list: a nested group stays a group, and the conditions on its fields must
/// all hold.
pub proof fn entries_let_through_what_is_asked_for(entry: JsonView, t: Thing)
    ensures
        filters::entry_filter(entry) is Some <==> entry_says(entry),
        filters::entry_filter(entry) matches Some(f) ==> (passes(t, f) <==> entry_holds(t, entry))
            && readable(f),
{
    lemma_entry(t, entry);
}

/// The same of one condition on one field.
pub proof fn conditions_let_through_what_meets_them(
    field: Seq<char>,
    kind: Seq<char>,
    criteria: JsonView,
    t: Thing,
)
    ensures
        filters::condition_filter(field, kind, criteria) is Some <==> criterion_says(
            kind,
            criteria,
        ),
        filters::condition_filter(field, kind, criteria) matches Some(f) ==> (passes(t, f)
            <==> criterion_holds(t, field, kind, criteria)) && readable(f),
{
    lemma_criterion(t, field, kind, criteria);
}

/// The message of a comparison lets through what the comparison does.
proof fn lemma_leaf_message(t: Thing, node: JsonView, operator: Seq<char>)
    requires
        compared_property(node) is Some,
        operator == "WithinGeoRange"@ || carried(node) is Some,
    ensures
        grpc::leaf_message(node, operator) matches Some(f) ==> message_passes(t, f) == if operator
            == "WithinGeoRange"@ {
            lies_within(t, compared_property(node)->0, node)
        } else {
            compares(t, operator, compared_property(node)->0, carried(node)->0)
        },
{
    lemma_operators();
    if operator == "WithinGeoRange"@ {
        if let Some(f) = grpc::leaf_message(node, operator) {
            assert(f.operator == Operator::WithinGeoRange);
        }
    } else {
        if let Some(f) = grpc::leaf_message(node, operator) {
            assert(grpc::comparison_operator(operator) is Some);
            assert(message_value(f.test_value->0) == carried(node));
        }
    }
}

/// A filter message lets through what the where-filter that it was made of does.
proof fn lemma_message(t: Thing, node: JsonView)
    requires
        readable(node),
    ensures
        grpc::message_of(node) matches Some(f) ==> message_passes(t, f) == passes(t, node),
    decreases node, 1int,
{
    if let JsonView::Object(members) = node {
        if let Some(JsonView::Text(operator)) = json::member_of(members, "operator"@) {
            if let Some(JsonView::Array(operands)) = json::member_of(members, "operands"@) {
                json::lemma_member_is_inside(members, "operands"@);
                lemma_operators();
                lemma_messages(t, operands);
                if let Some(f) = grpc::message_of(node) {
                    let list = grpc::messages_of(operands)->0;
                    assert(f.filters == list);
                    if operator == "And"@ {
                        if all_pass(t, operands) {
                            assert forall|i: int| 0 <= i < list.len() implies message_passes(
                                t,
                                #[trigger] f.filters[i],
                            ) by {
                                assert(message_passes(t, list[i]) == passes(t, operands[i]));
                            }
                        }
                        if message_passes(t, f) {
                            assert forall|i: int| 0 <= i < operands.len() implies passes(
                                t,
                                #[trigger] operands[i],
                            ) by {
                                assert(message_passes(t, f.filters[i]));
                                assert(message_passes(t, list[i]) == passes(t, operands[i]));
                            }
                        }
                    } else {
                        if one_passes(t, operands) {
                            let i = choose|i: int|
                                0 <= i < operands.len() && passes(t, #[trigger] operands[i]);
                            assert(message_passes(t, list[i]) == passes(t, operands[i]));
                            assert(message_passes(t, f.filters[i]));
                        }
                        if message_passes(t, f) {
                            let i = choose|i: int|
                                0 <= i < f.filters.len() && message_passes(
                                    t,
                                    #[trigger] f.filters[i],
                                );
                            assert(message_passes(t, list[i]) == passes(t, operands[i]));
                        }
                    }
                }
            } else {
                lemma_leaf_message(t, node, operator);
            }
        }
    }
}

/// The same of several, each in its place.
proof fn lemma_messages(t: Thing, nodes: Seq<JsonView>)
    requires
        all_readable(nodes),
    ensures
        grpc::messages_of(nodes) matches Some(list) ==> list.len() == nodes.len() && forall|i: int|
            0 <= i < nodes.len() ==> message_passes(t, #[trigger] list[i]) == passes(t, nodes[i]),
    decreases nodes, 0int,
{
    if nodes.len() > 0 {
        let front = nodes.drop_last();
        assert forall|i: int| 0 <= i < front.len() implies readable(#[trigger] front[i]) by {
            assert(readable(nodes[i]));
        }
        lemma_messages(t, front);
        assert(readable(nodes[nodes.len() - 1]));
        lemma_message(t, nodes.last());
        if let Some(list) = grpc::messages_of(nodes) {
            let earlier = grpc::messages_of(front)->0;
            assert forall|i: int| 0 <= i < nodes.len() implies message_passes(t, #[trigger] list[i])
                == passes(t, nodes[i]) by {
                if i < front.len() {
                    assert(message_passes(t, earlier[i]) == passes(t, front[i]));
                }
            }
        }
    }
}

/// The two forms of a filter let the same objects through: a filter message, where there is one, passes
/// what the where-filter that it was made of passes.
pub proof fn messages_let_the_same_through(node: JsonView, t: Thing)
    requires
        readable(node),
    ensures
        grpc::message_of(node) matches Some(f) ==> (message_passes(t, f) <==> passes(t, node)),
{
    lemma_message(t, node);
}

/// A query's filter message lets an object through exactly where the object is what the query's
/// conditions ask for.
pub proof fn messages_let_through_what_is_asked_for(conditions: JsonView, t: Thing)
    ensures
        filters::conditions_filter(conditions) matches Some(f) ==> (grpc::message_of(
            f,
        ) matches Some(message) ==> (message_passes(t, message) <==> holds(t, conditions))),
{
    lemma_conditions(t, conditions);
    if let Some(f) = filters::conditions_filter(conditions) {
        lemma_message(t, f);
    }
}

} // verus!
