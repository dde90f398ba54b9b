//! Requests and replies of the gRPC search call.
use vstd::prelude::*;

use crate::json::{self, Json, JsonNumber};
use crate::json::{JsonView, NumberView};
use crate::text::same_text;
use crate::weaviate::filters;
use crate::weaviate::meaning::{self, Thing};

verus! {

/// The operator of a filter message.
#[derive(Debug, Clone, Copy, PartialEq, Eq, Structural)]
pub enum Operator {
    And,
    Or,
    Equal,
    NotEqual,
    LessThan,
    LessThanEqual,
    GreaterThan,
    GreaterThanEqual,
    WithinGeoRange,
}

/// The value that a filter compares with. Numbers are sent as doubles, coordinates as singles.
#[derive(Debug, PartialEq, Eq)]
pub enum TestValue {
    ValueText(String),
    ValueInt(i64),
    ValueNumber(JsonNumber),
    ValueBoolean(bool),
    ValueGeo { latitude: JsonNumber, longitude: JsonNumber, distance: JsonNumber },
}

/// A filter message: an operator over nested filters, or over one property and a value.
#[derive(Debug, PartialEq, Eq)]
pub struct Filters {
    pub operator: Operator,
    pub filters: Vec<Filters>,
    pub target: Option<String>,
    pub test_value: Option<TestValue>,
}

/// What a [`TestValue`] is.
#[verifier::ext_equal]
pub enum TestValueView {
    ValueText(Seq<char>),
    ValueInt(i64),
    ValueNumber(NumberView),
    ValueBoolean(bool),
    ValueGeo { latitude: NumberView, longitude: NumberView, distance: NumberView },
}

/// What a [`Filters`] message is.
#[verifier::ext_equal]
pub struct FiltersView {
    pub operator: Operator,
    pub filters: Seq<FiltersView>,
    pub target: Option<Seq<char>>,
    pub test_value: Option<TestValueView>,
}

impl View for TestValue {
    type V = TestValueView;

    open spec fn view(&self) -> TestValueView {
        match *self {
            TestValue::ValueText(t) => TestValueView::ValueText(t@),
            TestValue::ValueInt(n) => TestValueView::ValueInt(n),
            TestValue::ValueNumber(n) => TestValueView::ValueNumber(n@),
            TestValue::ValueBoolean(b) => TestValueView::ValueBoolean(b),
            TestValue::ValueGeo { latitude, longitude, distance } => TestValueView::ValueGeo {
                latitude: latitude@,
                longitude: longitude@,
                distance: distance@,
            },
        }
    }
}

/// The view of a filter message.
pub open spec fn filters_view(f: Filters) -> FiltersView
    decreases f,
{
    FiltersView {
        operator: f.operator,
        filters: Seq::new(
            f.filters@.len(),
            |i: int|
                if 0 <= i < f.filters@.len() {
                    filters_view(f.filters@[i])
                } else {
                    arbitrary()
                },
        ),
        target: match f.target {
            Some(t) => Some(t@),
            None => None,
        },
        test_value: match f.test_value {
            Some(v) => Some(v@),
            None => None,
        },
    }
}

impl View for Filters {
    type V = FiltersView;

    open spec fn view(&self) -> FiltersView {
        filters_view(*self)
    }
}

/// The views of a list of filter messages.
pub open spec fn filter_list_view(list: Seq<Filters>) -> Seq<FiltersView> {
    Seq::new(list.len(), |i: int| list[i]@)
}

/// The logical operator of that name.
pub open spec fn logical_operator(name: Seq<char>) -> Option<Operator> {
    if name == "And"@ {
        Some(Operator::And)
    } else if name == "Or"@ {
        Some(Operator::Or)
    } else {
        None
    }
}

/// The comparison of that name.
pub open spec fn comparison_operator(name: Seq<char>) -> Option<Operator> {
    if name == "Equal"@ {
        Some(Operator::Equal)
    } else if name == "NotEqual"@ {
        Some(Operator::NotEqual)
    } else if name == "LessThan"@ {
        Some(Operator::LessThan)
    } else if name == "LessThanEqual"@ {
        Some(Operator::LessThanEqual)
    } else if name == "GreaterThan"@ {
        Some(Operator::GreaterThan)
    } else if name == "GreaterThanEqual"@ {
        Some(Operator::GreaterThanEqual)
    } else {
        None
    }
}

/// The number that a value is.
pub open spec fn number_of(v: Option<JsonView>) -> Option<NumberView> {
    match v {
        Some(JsonView::Number(n)) => Some(n),
        _ => None,
    }
}

/// The member under `key` of the member that is there.
pub open spec fn under(v: Option<JsonView>, key: Seq<char>) -> Option<JsonView> {
    match v {
        Some(m) => m.member(key),
        None => None,
    }
}

/// The value that a comparison carries: the first of its typed members, where it has that type.
pub open spec fn compared_value(node: JsonView) -> Option<TestValueView> {
    match node.member("valueText"@) {
        Some(v) => match v {
            JsonView::Text(t) => Some(TestValueView::ValueText(t)),
            _ => None,
        },
        None => match node.member("valueInt"@) {
            Some(v) => match v.as_int() {
                Some(n) => Some(TestValueView::ValueInt(n as i64)),
                None => None,
            },
            None => match node.member("valueNumber"@) {
                Some(v) => match number_of(Some(v)) {
                    Some(n) => Some(TestValueView::ValueNumber(n)),
                    None => None,
                },
                None => match node.member("valueBoolean"@) {
                    Some(JsonView::Bool(b)) => Some(TestValueView::ValueBoolean(b)),
                    _ => None,
                },
            },
        },
    }
}

/// The point and radius that a geographic filter carries.
pub open spec fn geo_value(node: JsonView) -> Option<TestValueView> {
    let range = node.member("valueGeoRange"@);
    let coordinates = under(range, "geoCoordinates"@);
    match (
        number_of(under(coordinates, "latitude"@)),
        number_of(under(coordinates, "longitude"@)),
        number_of(under(under(range, "distance"@), "max"@)),
    ) {
        (Some(latitude), Some(longitude), Some(distance)) => Some(
            TestValueView::ValueGeo { latitude, longitude, distance },
        ),
        _ => None,
    }
}

/// The property that a filter is on: the first step of its path.
pub open spec fn target_of(node: JsonView) -> Option<Seq<char>> {
    match filters::items_under(node, "path"@) {
        Some(path) => if path.len() > 0 {
            path[0].text()
        } else {
            None
        },
        None => None,
    }
}

/// The filter message of a comparison or a geographic filter called `operator`.
pub open spec fn leaf_message(node: JsonView, operator: Seq<char>) -> Option<FiltersView> {
    let (op, value) = if operator == "WithinGeoRange"@ {
        (Some(Operator::WithinGeoRange), geo_value(node))
    } else {
        (comparison_operator(operator), compared_value(node))
    };
    match (target_of(node), op, value) {
        (Some(target), Some(op), Some(value)) => Some(
            FiltersView {
                operator: op,
                filters: Seq::empty(),
                target: Some(target),
                test_value: Some(value),
            },
        ),
        _ => None,
    }
}

/// The filter message of a where-filter, where the message can express it.
pub open spec fn message_of(node: JsonView) -> Option<FiltersView>
    decreases node, 0int,
{
    match node {
        JsonView::Object(members) => match json::member_of(members, "operator"@) {
            Some(JsonView::Text(operator)) => match json::member_of(members, "operands"@) {
                Some(JsonView::Array(operands)) => {
                    proof {
                        json::lemma_member_is_inside(members, "operands"@);
                    }
                    match (logical_operator(operator), messages_of(operands)) {
                        (Some(op), Some(nested)) => Some(
                            FiltersView {
                                operator: op,
                                filters: nested,
                                target: None,
                                test_value: None,
                            },
                        ),
                        _ => None,
                    }
                },
                _ => leaf_message(node, operator),
            },
            _ => None,
        },
        _ => None,
    }
}

/// The filter messages of several where-filters, where each can be expressed.
pub open spec fn messages_of(nodes: Seq<JsonView>) -> Option<Seq<FiltersView>>
    decreases nodes, 0int,
{
    if nodes.len() == 0 {
        Some(Seq::empty())
    } else {
        match (messages_of(nodes.drop_last()), message_of(nodes.last())) {
            (Some(earlier), Some(f)) => Some(earlier.push(f)),
            _ => None,
        }
    }
}

/// A list that cannot be expressed from some point on cannot be expressed.
proof fn lemma_messages_of_prefix(nodes: Seq<JsonView>, n: int)
    requires
        0 <= n <= nodes.len(),
        messages_of(nodes.take(n)) is None,
    ensures
        messages_of(nodes) is None,
    decreases nodes.len() - n,
{
    if n < nodes.len() {
        assert(nodes.take(n + 1).drop_last() =~= nodes.take(n));
        lemma_messages_of_prefix(nodes, n + 1);
    } else {
        assert(nodes.take(n) =~= nodes);
    }
}

/// A filter message without nested filters.
fn new_leaf(operator: Operator, target: &str, value: TestValue) -> (r: Filters)
    ensures
        r@ == (FiltersView {
            operator,
            filters: Seq::empty(),
            target: Some(target@),
            test_value: Some(value@),
        }),
{
    let r: Filters = Filters {
        operator,
        filters: Vec::new(),
        target: Some(target.to_owned()),
        test_value: Some(value),
    };
    assert(filters_view(r).filters =~= Seq::empty());
    r
}

/// The comparison of that name.
fn comparison_named(name: &str) -> (r: Option<Operator>)
    ensures
        r == comparison_operator(name@),
{
    if same_text(name, "Equal") {
        Some(Operator::Equal)
    } else if same_text(name, "NotEqual") {
        Some(Operator::NotEqual)
    } else if same_text(name, "LessThan") {
        Some(Operator::LessThan)
    } else if same_text(name, "LessThanEqual") {
        Some(Operator::LessThanEqual)
    } else if same_text(name, "GreaterThan") {
        Some(Operator::GreaterThan)
    } else if same_text(name, "GreaterThanEqual") {
        Some(Operator::GreaterThanEqual)
    } else {
        None
    }
}

/// The number under `key`.
fn number_under(v: &Json, key: &str) -> (r: Option<JsonNumber>)
    ensures
        r is Some == number_of(v@.member(key@)) is Some,
        r matches Some(n) ==> number_of(v@.member(key@)) == Some(n@),
{
    match v.get(key) {
        Some(Json::Number(n)) => Some(n.clone()),
        _ => None,
    }
}

/// The value that a comparison carries.
fn read_compared(node: &Json) -> (r: Option<TestValue>)
    ensures
        r is Some == compared_value(node@) is Some,
        r matches Some(v) ==> compared_value(node@) == Some(v@),
{
    if let Some(v) = node.get("valueText") {
        return match v.as_str() {
            Some(t) => Some(TestValue::ValueText(t.to_owned())),
            None => None,
        };
    }
    if let Some(v) = node.get("valueInt") {
        return match v.as_i64() {
            Some(n) => Some(TestValue::ValueInt(n)),
            None => None,
        };
    }
    if let Some(v) = node.get("valueNumber") {
        return match v {
            Json::Number(n) => Some(TestValue::ValueNumber(n.clone())),
            _ => None,
        };
    }
    match node.get("valueBoolean") {
        Some(v) => match v.as_bool() {
            Some(b) => Some(TestValue::ValueBoolean(b)),
            None => None,
        },
        None => None,
    }
}

/// The point and radius that a geographic filter carries.
fn read_geo(node: &Json) -> (r: Option<TestValue>)
    ensures
        r is Some == geo_value(node@) is Some,
        r matches Some(v) ==> geo_value(node@) == Some(v@),
{
    let range: &Json = match node.get("valueGeoRange") {
        Some(v) => v,
        None => return None,
    };
    let coordinates: &Json = match range.get("geoCoordinates") {
        Some(v) => v,
        None => return None,
    };
    let latitude: JsonNumber = match number_under(coordinates, "latitude") {
        Some(n) => n,
        None => return None,
    };
    let longitude: JsonNumber = match number_under(coordinates, "longitude") {
        Some(n) => n,
        None => return None,
    };
    let limit: &Json = match range.get("distance") {
        Some(v) => v,
        None => return None,
    };
    match number_under(limit, "max") {
        Some(distance) => Some(TestValue::ValueGeo { latitude, longitude, distance }),
        None => None,
    }
}

/// The filter message of a comparison or a geographic filter.
fn translate_leaf(node: &Json, operator: &str) -> (r: Option<Filters>)
    ensures
        r is Some == leaf_message(node@, operator@) is Some,
        r matches Some(f) ==> leaf_message(node@, operator@) == Some(f@),
{
    let target: &str = match node.get("path") {
        Some(v) => match v.as_array() {
            Some(path) => if path.len() > 0 {
                assert(json::items_view(path@)[0] == path@[0]@);
                match path[0].as_str() {
                    Some(t) => t,
                    None => return None,
                }
            } else {
                return None;
            },
            None => return None,
        },
        None => return None,
    };
    if same_text(operator, "WithinGeoRange") {
        return match read_geo(node) {
            Some(v) => Some(new_leaf(Operator::WithinGeoRange, target, v)),
            None => None,
        };
    }
    match (comparison_named(operator), read_compared(node)) {
        (Some(op), Some(v)) => Some(new_leaf(op, target, v)),
        _ => None,
    }
}

/// The filter messages of several where-filters.
fn translate_list(nodes: &Vec<Json>) -> (r: Option<Vec<Filters>>)
    ensures
        r is Some == messages_of(json::items_view(nodes@)) is Some,
        r matches Some(list) ==> messages_of(json::items_view(nodes@)) == Some(
            filter_list_view(list@),
        ),
    decreases nodes, 0int,
{
    let ghost views = json::items_view(nodes@);
    let mut list: Vec<Filters> = Vec::new();
    let mut i: usize = 0;
    assert(filter_list_view(list@) =~= Seq::empty());
    while i < nodes.len()
        invariant
            i <= nodes@.len(),
            views == json::items_view(nodes@),
            messages_of(views.take(i as int)) == Some(filter_list_view(list@)),
        decreases nodes@.len() - i,
    {
        let ghost sofar = filter_list_view(list@);
        proof {
            assert(views.take(i + 1).drop_last() =~= views.take(i as int));
            assert(views.take(i + 1).last() == views[i as int]);
        }
        match where_json_to_grpc_filters(&nodes[i]) {
            Some(f) => {
                list.push(f);
                assert(filter_list_view(list@) =~= sofar.push(f@));
            },
            None => {
                proof {
                    lemma_messages_of_prefix(views, i + 1);
                }
                return None;
            },
        }
        i += 1;
    }
    assert(views.take(i as int) =~= views);
    Some(list)
}

/// The filter message of a where-filter: the same tree, operator by operator and value by value, as
/// the one that is written into a GraphQL query. Nothing where some part of it cannot be expressed.
pub fn where_json_to_grpc_filters(node: &Json) -> (r: Option<Filters>)
    ensures
        r is Some == message_of(node@) is Some,
        r matches Some(f) ==> message_of(node@) == Some(f@),
        r matches Some(f) ==> (meaning::readable(node@) ==> forall|t: Thing| #[trigger]
            meaning::message_passes(t, f@) == meaning::passes(t, node@)),
    decreases node, 0int,
{
    proof {
        if meaning::readable(node@) {
            if let Some(f) = message_of(node@) {
                assert forall|t: Thing| #[trigger]
                    meaning::message_passes(t, f) == meaning::passes(t, node@) by {
                    meaning::messages_let_the_same_through(node@, t);
                }
            }
        }
    }
    match node.as_object() {
        Some(_) => {},
        None => return None,
    }
    let operator: &str = match node.get("operator") {
        Some(v) => match v.as_str() {
            Some(s) => s,
            None => return None,
        },
        None => return None,
    };
    if let Some(v) = node.get("operands") {
        if let Some(operands) = v.as_array() {
            let op: Operator = if same_text(operator, "And") {
                Operator::And
            } else if same_text(operator, "Or") {
                Operator::Or
            } else {
                return None;
            };
            return match translate_list(operands) {
                Some(nested) => {
                    let f: Filters = Filters {
                        operator: op,
                        filters: nested,
                        target: None,
                        test_value: None,
                    };
                    assert(filters_view(f).filters =~= filter_list_view(nested@));
                    Some(f)
                },
                None => None,
            };
        }
    }
    translate_leaf(node, operator)
}

/// A comparison that is sent as one property and one scalar of the kind that its key names is
/// expressed by the message, under the operator and with the value that it has.
pub proof fn comparisons_translate(
    field: Seq<char>,
    operator: Seq<char>,
    key: Seq<char>,
    value: JsonView,
)
    requires
        comparison_operator(operator) is Some,
        key == "valueText"@ && value is Text || key == "valueInt"@ && value.as_int() is Some || key
            == "valueNumber"@ && value is Number || key == "valueBoolean"@ && value is Bool,
    ensures
        message_of(filters::leaf(field, operator, key, value)) == Some(
            FiltersView {
                operator: comparison_operator(operator)->0,
                filters: Seq::empty(),
                target: Some(field),
                test_value: Some(
                    match value {
                        JsonView::Text(t) => TestValueView::ValueText(t),
                        JsonView::Bool(b) => TestValueView::ValueBoolean(b),
                        JsonView::Number(n) => if key == "valueInt"@ {
                            TestValueView::ValueInt(value.as_int()->0 as i64)
                        } else {
                            TestValueView::ValueNumber(n)
                        },
                        _ => arbitrary(),
                    },
                ),
            },
        ),
{
    broadcast use json::put_then_member;

    reveal_strlit("path");
    reveal_strlit("operator");
    reveal_strlit("operands");
    reveal_strlit("valueText");
    reveal_strlit("valueInt");
    reveal_strlit("valueNumber");
    reveal_strlit("valueBoolean");
    reveal_strlit("WithinGeoRange");
    reveal_strlit("Equal");
    reveal_strlit("NotEqual");
    reveal_strlit("LessThan");
    reveal_strlit("LessThanEqual");
    reveal_strlit("GreaterThan");
    reveal_strlit("GreaterThanEqual");
    let node = filters::leaf(field, operator, key, value);
    assert("operator"@ != "path"@);
    assert("operands"@[5] != "operator"@[5]);
    assert("operands"@.len() != "path"@.len());
    assert("valueText"@[5] == 'T');
    assert("valueInt"@[5] == 'I');
    assert("valueNumber"@[5] == 'N');
    assert("valueBoolean"@[5] == 'B');
    assert(key.len() != 4 && key[0] == 'v' && "operator"@[0] == 'o' && "operands"@[0] == 'o'
        && "path"@[0] == 'p');
    assert(operator != "WithinGeoRange"@) by {
        assert("WithinGeoRange"@[0] == 'W');
        assert(operator[0] == 'E' || operator[0] == 'N' || operator[0] == 'L' || operator[0]
            == 'G');
    }
    assert(node.member("operator"@) == Some(JsonView::Text(operator)));
    assert(node.member("operands"@) is None);
    assert(target_of(node) == Some(field));
}

/// A group of where-filters is expressed exactly where each of its parts is, under the same operator.
pub proof fn groups_translate(operator: Seq<char>, operands: Seq<JsonView>)
    requires
        logical_operator(operator) is Some,
    ensures
        message_of(filters::group(operator, operands)) == match messages_of(operands) {
            Some(nested) => Some(
                FiltersView {
                    operator: logical_operator(operator)->0,
                    filters: nested,
                    target: None,
                    test_value: None,
                },
            ),
            None => None,
        },
{
    broadcast use json::put_then_member;

    reveal_strlit("operator");
    reveal_strlit("operands");
    assert("operands"@[5] != "operator"@[5]);
    let node = filters::group(operator, operands);
    assert(node.member("operator"@) == Some(JsonView::Text(operator)));
    assert(node.member("operands"@) == Some(JsonView::Array(operands)));
}

/// The filter for a value out of no alternatives asks one property to be equal and not equal to the
/// same text, in both transports: no object passes it.
pub proof fn no_alternatives_translate_to_nothing(field: Seq<char>)
    ensures
        message_of(filters::equals_any(field, Seq::empty())) matches Some(f) && f.operator
            == Operator::And && f.filters.len() == 2 && f.filters[0].operator == Operator::Equal
            && f.filters[1].operator == Operator::NotEqual && f.filters[0].target
            == f.filters[1].target && f.filters[0].test_value == f.filters[1].test_value,
{
    let text = JsonView::Text(filters::NEVER@);
    let a = filters::leaf(field, "Equal"@, "valueText"@, text);
    let b = filters::leaf(field, "NotEqual"@, "valueText"@, text);
    comparisons_translate(field, "Equal"@, "valueText"@, text);
    comparisons_translate(field, "NotEqual"@, "valueText"@, text);
    reveal_strlit("Equal");
    reveal_strlit("NotEqual");
    groups_translate("And"@, seq![a, b]);
    assert(seq![a, b].drop_last() =~= seq![a]);
    assert(seq![a].drop_last() =~= Seq::empty());
    assert(messages_of(Seq::<JsonView>::empty()) == Some(Seq::<FiltersView>::empty()));
    assert(messages_of(seq![a]) == Some(Seq::<FiltersView>::empty().push(message_of(a)->0)));
    assert("NotEqual"@.len() != "Equal"@.len());
    assert(comparison_operator("NotEqual"@) == Some(Operator::NotEqual));
    assert(seq![a, b].last() == b);
    assert(messages_of(seq![a, b]) == Some(messages_of(seq![a])->0.push(message_of(b)->0)));
    assert(filters::equals_any(field, Seq::empty()) == filters::group("And"@, seq![a, b]));
}

} // verus!
