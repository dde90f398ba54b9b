//! The metadata of a row.
use vstd::prelude::*;

use crate::json::{self, Json, JsonView};
use crate::json_text;
use crate::text;

verus! {

/// A value of a row's metadata. A floating-point number is held as the JSON value that stands for it
/// and as the text that shows it; coordinates as JSON values.
#[derive(Debug)]
pub enum MetadataValue {
    Text(String),
    Int(i64),
    Float { value: Json, shown: String },
    Labels(Vec<String>),
    Geo { lon: Json, lat: Json },
}

/// The metadata of a row: its fields and their values.
#[derive(Debug)]
pub struct MetadataItem {
    pub fields: Vec<(String, MetadataValue)>,
}

/// Whether a value holds a number under a key.
pub open spec fn number_at(v: JsonView, key: Seq<char>) -> bool {
    v.member(key) matches Some(JsonView::Number(_))
}

/// Whether a value is one that a field can have: a null is none, and an object is one where it gives
/// coordinates.
pub open spec fn is_kept(v: JsonView) -> bool {
    match v {
        JsonView::Null => false,
        JsonView::Object(_) => number_at(v, "lon"@) && number_at(v, "lat"@),
        _ => true,
    }
}

/// The texts among the first `n` items of a list.
pub open spec fn label_texts(items: Seq<JsonView>, n: int) -> Seq<Seq<char>>
    decreases n,
{
    if n <= 0 {
        Seq::empty()
    } else {
        match items[n - 1] {
            JsonView::Text(s) => label_texts(items, n - 1).push(s),
            _ => label_texts(items, n - 1),
        }
    }
}

/// Whether `m` is the metadata value that a JSON value stands for: truth values are texts, whole numbers
/// that fit are integers, and lists are labels. `shown` shows the value where it is another number.
pub open spec fn stands_for(v: JsonView, shown: Seq<char>, m: MetadataValue) -> bool {
    match v {
        JsonView::Null => false,
        JsonView::Bool(b) => m matches MetadataValue::Text(s) && s@ == if b {
            "true"@
        } else {
            "false"@
        },
        JsonView::Text(t) => m matches MetadataValue::Text(s) && s@ == t,
        JsonView::Number(_) => match v.as_int() {
            Some(n) => m == MetadataValue::Int(n as i64),
            None => m matches MetadataValue::Float { value, shown: s } && value@ == v && s@ == shown,
        },
        JsonView::Array(items) => m matches MetadataValue::Labels(labels) && text::texts_view(labels@)
            == label_texts(items, items.len() as int),
        JsonView::Object(_) => m matches MetadataValue::Geo { lon, lat } && v.member("lon"@) == Some(
            lon@,
        ) && v.member("lat"@) == Some(lat@),
    }
}

/// The places below `n` of the members that a field is made of.
pub open spec fn kept_members(members: Seq<(Seq<char>, JsonView)>, n: int) -> Seq<int>
    decreases n,
{
    if n <= 0 {
        Seq::empty()
    } else if is_kept(members[n - 1].1) {
        kept_members(members, n - 1).push(n - 1)
    } else {
        kept_members(members, n - 1)
    }
}

/// Whether fields are those of the members at some places.
pub open spec fn fields_of(
    fields: Seq<(String, MetadataValue)>,
    members: Seq<(Seq<char>, JsonView)>,
    shown: Seq<Seq<char>>,
    places: Seq<int>,
) -> bool {
    &&& fields.len() == places.len()
    &&& forall|i: int|
        0 <= i < fields.len() ==> {
            let f = #[trigger] fields[i];
            f.0@ == members[places[i]].0 && stands_for(
                members[places[i]].1,
                shown[places[i]],
                f.1,
            )
        }
}

/// The labels of a list.
fn read_labels(items: &Vec<Json>) -> (r: Vec<String>)
    ensures
        text::texts_view(r@) == label_texts(json::items_view(items@), items@.len() as int),
{
    let ghost views = json::items_view(items@);
    let mut r: Vec<String> = Vec::new();
    let mut i: usize = 0;
    assert(text::texts_view(r@) =~= Seq::empty());
    while i < items.len()
        invariant
            i <= items@.len(),
            views == json::items_view(items@),
            text::texts_view(r@) == label_texts(views, i as int),
        decreases items@.len() - i,
    {
        assert(views[i as int] == items@[i as int]@);
        if let Some(s) = items[i].as_str() {
            let ghost before = text::texts_view(r@);
            r.push(s.to_owned());
            assert(text::texts_view(r@) =~= before.push(s@));
        }
        i += 1;
    }
    r
}

/// The number under a key.
fn number_under<'a>(v: &'a Json, key: &str) -> (r: Option<&'a Json>)
    ensures
        r is Some == number_at(v@, key@),
        r matches Some(n) ==> v@.member(key@) == Some(n@),
{
    match v.get(key) {
        Some(n) => match n {
            Json::Number(_) => Some(n),
            _ => None,
        },
        None => None,
    }
}

/// The metadata value that a JSON value stands for, where it stands for one.
fn read_value(v: &Json, shown: &str) -> (r: Option<MetadataValue>)
    ensures
        r is Some == is_kept(v@),
        r matches Some(m) ==> stands_for(v@, shown@, m),
{
    broadcast use {json::lemma_array_view, json::lemma_object_view};

    match v {
        Json::Null => None,
        Json::Bool(b) => Some(
            MetadataValue::Text(
                if *b {
                    "true".to_owned()
                } else {
                    "false".to_owned()
                },
            ),
        ),
        Json::Text(s) => Some(MetadataValue::Text(s.clone())),
        Json::Number(_) => match v.as_i64() {
            Some(n) => Some(MetadataValue::Int(n)),
            None => Some(MetadataValue::Float { value: v.clone(), shown: shown.to_owned() }),
        },
        Json::Array(items) => Some(MetadataValue::Labels(read_labels(items))),
        Json::Object(_) => match (number_under(v, "lon"), number_under(v, "lat")) {
            (Some(lon), Some(lat)) => Some(
                MetadataValue::Geo { lon: lon.clone(), lat: lat.clone() },
            ),
            _ => None,
        },
    }
}

/// Whether `r` is the metadata that a record gives; none where it is no object. `shown` holds of each
/// member the text that shows it where it is a number.
pub open spec fn is_metadata_of(
    record: JsonView,
    shown: Seq<Seq<char>>,
    r: Option<MetadataItem>,
) -> bool {
    match record {
        JsonView::Object(members) => r matches Some(m) && fields_of(
            m.fields@,
            members,
            shown,
            kept_members(members, members.len() as int),
        ),
        _ => r is None,
    }
}

/// The metadata that a record gives; none where it is no object. `shown` holds of each member the text
/// that shows it where it is a number.
pub fn metadata_with(record: &Json, shown: &[String]) -> (r: Option<MetadataItem>)
    requires
        record@ matches JsonView::Object(members) ==> shown@.len() == members.len(),
    ensures
        is_metadata_of(record@, text::texts_view(shown@), r),
{
    broadcast use json::lemma_object_view;

    let members: &Vec<(String, Json)> = match record.as_object() {
        Some(m) => m,
        None => return None,
    };
    let ghost views = json::members_view(members@);
    let ghost texts = text::texts_view(shown@);
    let mut fields: Vec<(String, MetadataValue)> = Vec::new();
    let mut i: usize = 0;
    while i < members.len()
        invariant
            i <= members@.len(),
            shown@.len() == members@.len(),
            views == json::members_view(members@),
            fields_of(fields@, views, texts, kept_members(views, i as int)),
            texts == text::texts_view(shown@),
        decreases members@.len() - i,
    {
        assert(views[i as int] == (members@[i as int].0@, members@[i as int].1@));
        assert(texts[i as int] == shown@[i as int]@);
        if let Some(value) = read_value(&members[i].1, shown[i].as_str()) {
            let ghost places = kept_members(views, i as int);
            let ghost before = fields@;
            fields.push((members[i].0.clone(), value));
            proof {
                let now = places.push(i as int);
                assert forall|k: int| 0 <= k < fields@.len() implies ({
                    let f = #[trigger] fields@[k];
                    f.0@ == views[now[k]].0 && stands_for(views[now[k]].1, texts[now[k]], f.1)
                }) by {
                    if k < before.len() {
                        assert(fields@[k] == before[k]);
                        assert(now[k] == places[k]);
                    }
                }
            }
        }
        i += 1;
    }
    Some(MetadataItem { fields })
}

/// What the standard library shows for the finite double that a text is read as, where it is read as
/// one.
pub uninterp spec fn double_shown(number: Seq<char>) -> Option<Seq<char>>;

/// `str::parse` to a double, taken through `serde_json::Number::from_f64` and `Number::as_f64`, which keep
/// it where it is finite and give nothing where it is not, and shown by `to_string`: a function of the
/// text alone.
#[verifier::external_body]
fn show_double(number: &str) -> (r: Option<String>)
    ensures
        r is Some == double_shown(number@) is Some,
        r matches Some(t) ==> double_shown(number@) == Some(t@),
{
    let read: Option<serde_json::Number> = number.parse().ok().and_then(serde_json::Number::from_f64);
    read?.as_f64().map(|v| v.to_string())
}

/// The text that shows a value where it is a number.
pub open spec fn shown_number(v: JsonView) -> Seq<char> {
    match v {
        JsonView::Number(n) => match double_shown(json_text::number_text(n)) {
            Some(t) => t,
            None => Seq::empty(),
        },
        _ => Seq::empty(),
    }
}

/// The text that shows a value where it is a number.
fn show_number(v: &Json) -> (r: String)
    ensures
        r@ == shown_number(v@),
{
    if let Json::Number(n) = v {
        assert(v@ == JsonView::Number(n@));
        if let Some(t) = show_double(json_text::number(n).as_str()) {
            return t;
        }
    }
    let r: String = String::new();
    assert(r@ =~= Seq::empty());
    r
}

/// The texts that show the members of a record where they are numbers.
pub open spec fn shown_members(record: JsonView) -> Seq<Seq<char>> {
    match record {
        JsonView::Object(members) => Seq::new(
            members.len(),
            |i: int| shown_number(members[i].1),
        ),
        _ => Seq::empty(),
    }
}

/// The metadata that a record gives; none where it is no object.
pub fn parse_metadata_from_json(record: &Json) -> (r: Option<MetadataItem>)
    ensures
        is_metadata_of(record@, shown_members(record@), r),
{
    broadcast use json::lemma_object_view;

    let members: &Vec<(String, Json)> = match record.as_object() {
        Some(m) => m,
        None => return None,
    };
    let ghost views = json::members_view(members@);
    let mut shown: Vec<String> = Vec::new();
    let mut i: usize = 0;
    while i < members.len()
        invariant
            i <= members@.len(),
            views == json::members_view(members@),
            shown@.len() == i,
            forall|j: int| 0 <= j < i ==> (#[trigger] shown@[j])@ == shown_number(views[j].1),
        decreases members@.len() - i,
    {
        assert(views[i as int] == (members@[i as int].0@, members@[i as int].1@));
        shown.push(show_number(&members[i].1));
        i += 1;
    }
    assert(text::texts_view(shown@) =~= shown_members(record@));
    metadata_with(record, shown.as_slice())
}

/// The places that are kept are those of the members that a field is made of, ascending.
proof fn lemma_kept_members(members: Seq<(Seq<char>, JsonView)>, n: int)
    requires
        0 <= n <= members.len(),
    ensures
        forall|i: int| #[trigger]
            kept_members(members, n).contains(i) <==> 0 <= i < n && is_kept(members[i].1),
        forall|k: int, l: int|
            0 <= k < l < kept_members(members, n).len() ==> #[trigger] kept_members(members, n)[k]
                < #[trigger] kept_members(members, n)[l],
    decreases n,
{
    if n > 0 {
        lemma_kept_members(members, n - 1);
        let earlier = kept_members(members, n - 1);
        let now = kept_members(members, n);
        assert forall|k: int| 0 <= k < earlier.len() implies #[trigger] earlier[k] < n - 1 by {
            assert(earlier.contains(earlier[k]));
        }
        if is_kept(members[n - 1].1) {
            assert forall|i: int| #[trigger] now.contains(i) <==> 0 <= i < n && is_kept(members[i].1) by {
                if earlier.contains(i) {
                    let k = choose|k: int| 0 <= k < earlier.len() && earlier[k] == i;
                    assert(now[k] == i);
                }
                if i == n - 1 {
                    assert(now[earlier.len() as int] == i);
                }
                if now.contains(i) && i != n - 1 {
                    let k = choose|k: int| 0 <= k < now.len() && now[k] == i;
                    assert(earlier[k] == i);
                }
            }
        }
    }
}

/// The texts of a list are its labels, and nothing else is.
proof fn lemma_label_texts(items: Seq<JsonView>, n: int, label: Seq<char>)
    requires
        0 <= n <= items.len(),
    ensures
        label_texts(items, n).contains(label) <==> items.take(n).contains(JsonView::Text(label)),
    decreases n,
{
    if n > 0 {
        lemma_label_texts(items, n - 1, label);
        let earlier = label_texts(items, n - 1);
        let now = label_texts(items, n);
        let v = JsonView::Text(label);
        let front = items.take(n - 1);
        assert(items.take(n) =~= front.push(items[n - 1]));
        assert(items.take(n)[n - 1] == items[n - 1]);
        if front.contains(v) {
            let k = choose|k: int| 0 <= k < front.len() && front[k] == v;
            assert(items.take(n)[k] == v);
        }
        if items.take(n).contains(v) {
            let k = choose|k: int| 0 <= k < items.take(n).len() && items.take(n)[k] == v;
            if k < n - 1 {
                assert(front[k] == v);
            }
        }
        if earlier.contains(label) {
            let k = choose|k: int| 0 <= k < earlier.len() && earlier[k] == label;
            assert(now[k] == label);
        }
        if items[n - 1] is Text {
            assert(now[earlier.len() as int] == items[n - 1]->Text_0);
            if now.contains(label) {
                let k = choose|k: int| 0 <= k < now.len() && now[k] == label;
                if k < earlier.len() {
                    assert(earlier[k] == label);
                }
            }
        }
    }
}

/// Every member of a record that a field can be made of is a field of its metadata, under the same name and
/// with the same value: a text with its text, a number with its number, a list with the texts in it, and
/// coordinates each with its own.
pub proof fn every_member_is_a_field(
    members: Seq<(Seq<char>, JsonView)>,
    shown: Seq<Seq<char>>,
    m: MetadataItem,
    i: int,
    label: Seq<char>,
) -> (k: int)
    requires
        is_metadata_of(JsonView::Object(members), shown, Some(m)),
        0 <= i < members.len(),
        members[i].1 !is Null,
        members[i].1 is Object ==> number_at(members[i].1, "lon"@) && number_at(members[i].1, "lat"@),
    ensures
        0 <= k < m.fields@.len(),
        m.fields@[k].0@ == members[i].0,
        members[i].1 matches JsonView::Text(t) ==> (m.fields@[k].1 matches MetadataValue::Text(s) && s@
            == t),
        members[i].1 matches JsonView::Bool(b) ==> (m.fields@[k].1 matches MetadataValue::Text(s) && (b
            ==> s@ == "true"@) && (!b ==> s@ == "false"@)),
        members[i].1 is Number && members[i].1.as_int() is Some ==> (
        m.fields@[k].1 matches MetadataValue::Int(n) && n == members[i].1.as_int()->Some_0 as i64),
        members[i].1 is Number && members[i].1.as_int() is None ==> (
        m.fields@[k].1 matches MetadataValue::Float { value, shown: s } && value@ == members[i].1 && s@
            == shown[i]),
        members[i].1 matches JsonView::Array(items) ==> (
        m.fields@[k].1 matches MetadataValue::Labels(labels) && (text::texts_view(labels@).contains(label)
            <==> items.contains(JsonView::Text(label)))),
        members[i].1 is Object ==> (m.fields@[k].1 matches MetadataValue::Geo { lon, lat }
            && members[i].1.member("lon"@) == Some(lon@) && members[i].1.member("lat"@) == Some(lat@)),
{
    let places = kept_members(members, members.len() as int);
    lemma_kept_members(members, members.len() as int);
    assert(places.contains(i));
    let k = choose|k: int| 0 <= k < places.len() && places[k] == i;
    assert(m.fields@[k].0@ == members[places[k]].0);
    if let JsonView::Array(items) = members[i].1 {
        lemma_label_texts(items, items.len() as int, label);
        assert(items.take(items.len() as int) =~= items);
    }
    k
}

/// Every field of a record's metadata comes from a member of the same name, the fields in the order of the
/// members, and no field comes from a null or from an object without coordinates.
pub proof fn every_field_is_a_member(
    members: Seq<(Seq<char>, JsonView)>,
    shown: Seq<Seq<char>>,
    m: MetadataItem,
    k: int,
    l: int,
) -> (r: (int, int))
    requires
        is_metadata_of(JsonView::Object(members), shown, Some(m)),
        0 <= k < l < m.fields@.len(),
    ensures
        0 <= r.0 < r.1 < members.len(),
        m.fields@[k].0@ == members[r.0].0,
        m.fields@[l].0@ == members[r.1].0,
        members[r.0].1 !is Null && members[r.1].1 !is Null,
        members[r.0].1 is Object ==> number_at(members[r.0].1, "lon"@) && number_at(
            members[r.0].1,
            "lat"@,
        ),
{
    let places = kept_members(members, members.len() as int);
    lemma_kept_members(members, members.len() as int);
    assert(places.contains(places[k]) && places.contains(places[l]));
    assert(m.fields@[k].0@ == members[places[k]].0);
    assert(m.fields@[l].0@ == members[places[l]].0);
    (places[k], places[l])
}

} // verus!
