//! JSON values as plain data: what a parsed document holds, and how it is read.
use vstd::prelude::*;

use crate::sorted_texts;
use crate::text::{self, same_text, stands_before};

verus! {

/// A JSON number as it was parsed: a whole number that fits 64 bits, or any other number, which is
/// held as the text that writes it (the shortest one that reads back as the same double).
#[derive(Debug, PartialEq, Eq)]
pub enum JsonNumber {
    PosInt(u64),
    NegInt(i64),
    Float(String),
}

/// A JSON value. The members of an object stand in ascending order of their keys.
#[derive(Debug, PartialEq, Eq)]
pub enum Json {
    Null,
    Bool(bool),
    Number(JsonNumber),
    Text(String),
    Array(Vec<Json>),
    Object(Vec<(String, Json)>),
}

/// What a [`JsonNumber`] is.
#[verifier::ext_equal]
pub enum NumberView {
    PosInt(u64),
    NegInt(i64),
    Float(Seq<char>),
}

/// What a [`Json`] value is.
#[verifier::ext_equal]
pub enum JsonView {
    Null,
    Bool(bool),
    Number(NumberView),
    Text(Seq<char>),
    Array(Seq<JsonView>),
    Object(Seq<(Seq<char>, JsonView)>),
}

impl View for JsonNumber {
    type V = NumberView;

    open spec fn view(&self) -> NumberView {
        match *self {
            JsonNumber::PosInt(n) => NumberView::PosInt(n),
            JsonNumber::NegInt(n) => NumberView::NegInt(n),
            JsonNumber::Float(t) => NumberView::Float(t@),
        }
    }
}

/// The view of a JSON value.
pub open spec fn json_view(j: Json) -> JsonView
    decreases j,
{
    match j {
        Json::Null => JsonView::Null,
        Json::Bool(b) => JsonView::Bool(b),
        Json::Number(n) => JsonView::Number(n@),
        Json::Text(s) => JsonView::Text(s@),
        Json::Array(items) => JsonView::Array(
            Seq::new(
                items@.len(),
                |i: int|
                    if 0 <= i < items@.len() {
                        json_view(items@[i])
                    } else {
                        JsonView::Null
                    },
            ),
        ),
        Json::Object(members) => JsonView::Object(
            Seq::new(
                members@.len(),
                |i: int|
                    if 0 <= i < members@.len() {
                        (members@[i].0@, json_view(members@[i].1))
                    } else {
                        (Seq::empty(), JsonView::Null)
                    },
            ),
        ),
    }
}

impl View for Json {
    type V = JsonView;

    open spec fn view(&self) -> JsonView {
        json_view(*self)
    }
}

/// The values of a list of JSON values.
pub open spec fn items_view(items: Seq<Json>) -> Seq<JsonView> {
    Seq::new(items.len(), |i: int| items[i]@)
}

/// The members of an object.
pub open spec fn members_view(members: Seq<(String, Json)>) -> Seq<(Seq<char>, JsonView)> {
    Seq::new(members.len(), |i: int| (members[i].0@, members[i].1@))
}

/// The view of an array is the views of its items.
pub broadcast proof fn lemma_array_view(items: Vec<Json>)
    ensures
        #[trigger] json_view(Json::Array(items)) == JsonView::Array(items_view(items@)),
{
    assert(json_view(Json::Array(items))->Array_0 =~= items_view(items@));
}

/// The view of an object is the views of its members.
pub broadcast proof fn lemma_object_view(members: Vec<(String, Json)>)
    ensures
        #[trigger] json_view(Json::Object(members)) == JsonView::Object(members_view(members@)),
{
    assert(json_view(Json::Object(members))->Object_0 =~= members_view(members@));
}

impl JsonView {
    /// The members where the value is an object.
    pub open spec fn members(self) -> Option<Seq<(Seq<char>, JsonView)>> {
        match self {
            JsonView::Object(m) => Some(m),
            _ => None,
        }
    }

    /// The items where the value is an array.
    pub open spec fn items(self) -> Option<Seq<JsonView>> {
        match self {
            JsonView::Array(a) => Some(a),
            _ => None,
        }
    }

    /// The text where the value is a string.
    pub open spec fn text(self) -> Option<Seq<char>> {
        match self {
            JsonView::Text(s) => Some(s),
            _ => None,
        }
    }

    /// The member under `key`, where the value is an object that has one.
    pub open spec fn member(self, key: Seq<char>) -> Option<JsonView> {
        match self {
            JsonView::Object(m) => member_of(m, key),
            _ => None,
        }
    }

    /// The whole number that the value is, where it is one that fits a signed 64-bit integer.
    pub open spec fn as_int(self) -> Option<int> {
        match self {
            JsonView::Number(NumberView::PosInt(n)) => if n <= i64::MAX {
                Some(n as int)
            } else {
                None
            },
            JsonView::Number(NumberView::NegInt(n)) => Some(n as int),
            _ => None,
        }
    }
}

/// The value under `key` among `members`.
pub open spec fn member_of(members: Seq<(Seq<char>, JsonView)>, key: Seq<char>) -> Option<JsonView>
    decreases members.len(),
{
    if members.len() == 0 {
        None
    } else if members[0].0 == key {
        Some(members[0].1)
    } else {
        member_of(members.skip(1), key)
    }
}

/// The value under a key is inside the list of members.
pub proof fn lemma_member_is_inside(members: Seq<(Seq<char>, JsonView)>, key: Seq<char>)
    ensures
        member_of(members, key) matches Some(v) ==> decreases_to!(members => v),
    decreases members.len(),
{
    if member_of(members, key) is Some {
        let i = lemma_member_place(members, key);
        assert(decreases_to!(members => members[i]));
        assert(decreases_to!(members[i] => members[i].1));
    }
}

/// The place of the value under a key.
proof fn lemma_member_place(members: Seq<(Seq<char>, JsonView)>, key: Seq<char>) -> (i: int)
    requires
        member_of(members, key) is Some,
    ensures
        0 <= i < members.len(),
        members[i].0 == key,
        member_of(members, key) == Some(members[i].1),
    decreases members.len(),
{
    if members[0].0 == key {
        0
    } else {
        let i = lemma_member_place(members.skip(1), key);
        i + 1
    }
}

/// The members of an object once `value` is put under `key`: in its place in the order of the keys,
/// or instead of the value that was there.
pub open spec fn put(
    members: Seq<(Seq<char>, JsonView)>,
    key: Seq<char>,
    value: JsonView,
) -> Seq<(Seq<char>, JsonView)>
    decreases members.len(),
{
    if members.len() == 0 {
        seq![(key, value)]
    } else if members[0].0 == key {
        seq![(key, value)] + members.skip(1)
    } else if text::text_less(key, members[0].0) {
        seq![(key, value)] + members
    } else {
        seq![members[0]] + put(members.skip(1), key, value)
    }
}

/// No members.
pub open spec fn no_members() -> Seq<(Seq<char>, JsonView)> {
    Seq::empty()
}

/// What is put under a key is found there, and what stands under any other key stays.
pub broadcast proof fn put_then_member(
    members: Seq<(Seq<char>, JsonView)>,
    key: Seq<char>,
    value: JsonView,
    other: Seq<char>,
)
    ensures
        #[trigger] member_of(put(members, key, value), other) == if other == key {
            Some(value)
        } else {
            member_of(members, other)
        },
    decreases members.len(),
{
    let after = put(members, key, value);
    if members.len() == 0 {
        assert(after.skip(1) =~= Seq::empty());
    } else if members[0].0 == key {
        assert(after.skip(1) =~= members.skip(1));
    } else if text::text_less(key, members[0].0) {
        assert(after.skip(1) =~= members);
    } else {
        assert(after.skip(1) =~= put(members.skip(1), key, value));
        put_then_member(members.skip(1), key, value, other);
    }
}

/// Where the first `n` members stand before `key`, `put` works on the rest.
proof fn lemma_put_after(
    members: Seq<(Seq<char>, JsonView)>,
    key: Seq<char>,
    value: JsonView,
    n: int,
)
    requires
        0 <= n <= members.len(),
        forall|i: int|
            0 <= i < n ==> (#[trigger] members[i]).0 != key && !text::text_less(key, members[i].0),
    ensures
        put(members, key, value) == members.take(n) + put(members.skip(n), key, value),
    decreases n,
{
    if n > 0 {
        assert(members[0].0 != key);
        assert forall|i: int| 0 <= i < n - 1 implies (#[trigger] members.skip(1)[i]).0 != key
            && !text::text_less(key, members.skip(1)[i].0) by {
            assert(members.skip(1)[i] == members[i + 1]);
        }
        lemma_put_after(members.skip(1), key, value, n - 1);
        assert(members.skip(1).skip(n - 1) =~= members.skip(n));
        assert(members.take(n) =~= seq![members[0]] + members.skip(1).take(n - 1));
    } else {
        assert(members.take(0) =~= Seq::empty());
        assert(members.skip(0) =~= members);
    }
}

/// A member that is found stands somewhere in the list under its key.
proof fn lemma_member_of_found(members: Seq<(Seq<char>, JsonView)>, key: Seq<char>, n: int)
    requires
        0 <= n < members.len(),
        members[n].0 == key,
        forall|i: int| 0 <= i < n ==> (#[trigger] members[i]).0 != key,
    ensures
        member_of(members, key) == Some(members[n].1),
    decreases n,
{
    if n > 0 {
        assert(members[0].0 != key);
        lemma_member_of_found(members.skip(1), key, n - 1);
    }
}

/// A key that no member has is not found.
proof fn lemma_member_of_absent(members: Seq<(Seq<char>, JsonView)>, key: Seq<char>)
    requires
        forall|i: int| 0 <= i < members.len() ==> (#[trigger] members[i]).0 != key,
    ensures
        member_of(members, key) is None,
    decreases members.len(),
{
    if members.len() > 0 {
        assert(members[0].0 != key);
        assert forall|i: int| 0 <= i < members.skip(1).len() implies (#[trigger] members.skip(
            1,
        )[i]).0 != key by {
            assert(members.skip(1)[i] == members[i + 1]);
        }
        lemma_member_of_absent(members.skip(1), key);
    }
}

/// Puts `value` under `key`.
pub fn put_member(members: &mut Vec<(String, Json)>, key: &str, value: Json)
    ensures
        members_view(final(members)@) == put(members_view(old(members)@), key@, value@),
{
    let ghost before = members_view(members@);
    let mut i: usize = 0;
    while i < members.len()
        invariant
            i <= members@.len(),
            members@ == old(members)@,
            before == members_view(members@),
            forall|j: int|
                0 <= j < i ==> (#[trigger] before[j]).0 != key@ && !text::text_less(key@, before[j].0),
        decreases members@.len() - i,
    {
        assert(before[i as int].0 == members@[i as int].0@);
        if same_text(members[i].0.as_str(), key) {
            let entry: (String, Json) = (key.to_owned(), value);
            members.set(i, entry);
            proof {
                lemma_put_after(before, key@, value@, i as int);
                assert(before.skip(i as int)[0] == before[i as int]);
                assert(before.skip(i as int).skip(1) =~= before.skip(i + 1));
                assert(members_view(members@) =~= before.take(i as int) + (seq![(key@, value@)]
                    + before.skip(i + 1)));
            }
            return;
        }
        if stands_before(key, members[i].0.as_str()) {
            members.insert(i, (key.to_owned(), value));
            proof {
                lemma_put_after(before, key@, value@, i as int);
                assert(before.skip(i as int)[0] == before[i as int]);
                assert(members_view(members@) =~= before.take(i as int) + (seq![(key@, value@)]
                    + before.skip(i as int)));
            }
            return;
        }
        i += 1;
    }
    proof {
        lemma_put_after(before, key@, value@, i as int);
        assert(before.skip(i as int) =~= Seq::empty());
        assert(before.take(i as int) =~= before);
    }
    members.push((key.to_owned(), value));
    assert(members_view(members@) =~= before + seq![(key@, value@)]);
}

/// An empty list of members.
pub fn new_members() -> (members: Vec<(String, Json)>)
    ensures
        members_view(members@) == no_members(),
{
    let members: Vec<(String, Json)> = Vec::new();
    assert(members_view(members@) =~= no_members());
    members
}

/// A JSON string.
pub fn text_value(s: &str) -> (r: Json)
    ensures
        r@ == JsonView::Text(s@),
{
    Json::Text(s.to_owned())
}

/// A whole number as JSON holds it.
pub open spec fn int_view(n: i64) -> JsonView {
    JsonView::Number(
        if n < 0 {
            NumberView::NegInt(n)
        } else {
            NumberView::PosInt(n as u64)
        },
    )
}

/// A whole number as a JSON value.
pub fn int_value(n: i64) -> (r: Json)
    ensures
        r@ == int_view(n),
{
    if n < 0 {
        Json::Number(JsonNumber::NegInt(n))
    } else {
        Json::Number(JsonNumber::PosInt(n as u64))
    }
}

/// A count as JSON.
pub open spec fn count_view(n: u64) -> JsonView {
    JsonView::Number(NumberView::PosInt(n))
}

/// A count as JSON.
pub fn count_value(n: u64) -> (r: Json)
    ensures
        r@ == count_view(n),
{
    Json::Number(JsonNumber::PosInt(n))
}

/// A JSON array of one item.
pub fn single(item: Json) -> (r: Json)
    ensures
        r@ == JsonView::Array(seq![item@]),
{
    broadcast use lemma_array_view;

    let mut items: Vec<Json> = Vec::new();
    items.push(item);
    assert(items_view(items@) =~= seq![item@]);
    Json::Array(items)
}

impl Clone for JsonNumber {
    fn clone(&self) -> (r: Self)
        ensures
            r@ == self@,
    {
        match self {
            JsonNumber::PosInt(n) => JsonNumber::PosInt(*n),
            JsonNumber::NegInt(n) => JsonNumber::NegInt(*n),
            JsonNumber::Float(t) => JsonNumber::Float(t.clone()),
        }
    }
}

/// A copy of a list of values.
pub fn copy_items(items: &Vec<Json>) -> (r: Vec<Json>)
    ensures
        items_view(r@) == items_view(items@),
    decreases items,
{
    let mut r: Vec<Json> = Vec::new();
    let mut i: usize = 0;
    while i < items.len()
        invariant
            i <= items@.len(),
            r@.len() == i,
            forall|j: int| 0 <= j < i ==> (#[trigger] r@[j])@ == items@[j]@,
        decreases items@.len() - i,
    {
        r.push(copy_json(&items[i]));
        i += 1;
    }
    assert(items_view(r@) =~= items_view(items@));
    r
}

/// A copy of the members of an object.
pub fn copy_members(members: &Vec<(String, Json)>) -> (r: Vec<(String, Json)>)
    ensures
        members_view(r@) == members_view(members@),
    decreases members,
{
    let mut r: Vec<(String, Json)> = Vec::new();
    let mut i: usize = 0;
    while i < members.len()
        invariant
            i <= members@.len(),
            r@.len() == i,
            forall|j: int|
                0 <= j < i ==> (#[trigger] r@[j]).0@ == members@[j].0@ && r@[j].1@
                    == members@[j].1@,
        decreases members@.len() - i,
    {
        let key: String = members[i].0.clone();
        assert(decreases_to!(members@[i as int] => members@[i as int].1));
        let item: Json = copy_json(&members[i].1);
        r.push((key, item));
        i += 1;
    }
    assert(members_view(r@) =~= members_view(members@));
    r
}

/// A copy of a JSON value.
fn copy_json(value: &Json) -> (r: Json)
    ensures
        r@ == value@,
    decreases value,
{
    broadcast use {lemma_array_view, lemma_object_view};

    match value {
        Json::Null => Json::Null,
        Json::Bool(b) => Json::Bool(*b),
        Json::Number(n) => Json::Number(n.clone()),
        Json::Text(s) => Json::Text(s.clone()),
        Json::Array(items) => Json::Array(copy_items(items)),
        Json::Object(members) => Json::Object(copy_members(members)),
    }
}

impl Clone for Json {
    fn clone(&self) -> (r: Self)
        ensures
            r@ == self@,
    {
        copy_json(self)
    }
}

impl Json {
    /// The members where the value is an object.
    pub fn as_object(&self) -> (r: Option<&Vec<(String, Json)>>)
        ensures
            r is Some <==> self@ is Object,
            r matches Some(m) ==> self@ == JsonView::Object(members_view(m@)) && *self
                == Json::Object(*m),
    {
        broadcast use lemma_object_view;

        match self {
            Json::Object(m) => Some(m),
            _ => None,
        }
    }

    /// The items where the value is an array.
    pub fn as_array(&self) -> (r: Option<&Vec<Json>>)
        ensures
            r is Some <==> self@ is Array,
            r matches Some(a) ==> self@ == JsonView::Array(items_view(a@)) && *self == Json::Array(
                *a,
            ),
    {
        broadcast use lemma_array_view;

        match self {
            Json::Array(a) => Some(a),
            _ => None,
        }
    }

    /// The text where the value is a string.
    pub fn as_str(&self) -> (r: Option<&str>)
        ensures
            r is Some <==> self@ is Text,
            r matches Some(s) ==> self@ == JsonView::Text(s@),
    {
        match self {
            Json::Text(s) => Some(s.as_str()),
            _ => None,
        }
    }

    /// The truth value where the value is one.
    pub fn as_bool(&self) -> (r: Option<bool>)
        ensures
            r is Some <==> self@ is Bool,
            r matches Some(b) ==> self@ == JsonView::Bool(b),
    {
        match self {
            Json::Bool(b) => Some(*b),
            _ => None,
        }
    }

    /// The whole number that the value is, where it is one that fits `i64`.
    pub fn as_i64(&self) -> (r: Option<i64>)
        ensures
            r is Some <==> self@.as_int() is Some,
            r matches Some(n) ==> self@.as_int() == Some(n as int),
    {
        match self {
            Json::Number(JsonNumber::PosInt(n)) => if *n <= 0x7fff_ffff_ffff_ffffu64 {
                Some(*n as i64)
            } else {
                None
            },
            Json::Number(JsonNumber::NegInt(n)) => Some(*n),
            _ => None,
        }
    }

    /// The member under `key`, where the value is an object that has one.
    pub fn get(&self, key: &str) -> (r: Option<&Json>)
        ensures
            r is Some <==> self@.member(key@) is Some,
            r matches Some(v) ==> self@.member(key@) == Some(v@) && decreases_to!(self => v),
    {
        broadcast use lemma_object_view;

        match self {
            Json::Object(m) => {
                let mut i: usize = 0;
                while i < m.len()
                    invariant
                        i <= m@.len(),
                        *self == Json::Object(*m),
                        self@ == JsonView::Object(members_view(m@)),
                        forall|j: int|
                            0 <= j < i ==> (#[trigger] members_view(m@)[j]).0 != key@,
                    decreases m@.len() - i,
                {
                    if same_text(m[i].0.as_str(), key) {
                        proof {
                            assert(members_view(m@)[i as int].0 == key@);
                            lemma_member_of_found(members_view(m@), key@, i as int);
                        }
                        return Some(&m[i].1);
                    }
                    assert(members_view(m@)[i as int].0 != key@);
                    i += 1;
                }
                proof {
                    lemma_member_of_absent(members_view(m@), key@);
                }
                None
            },
            _ => None,
        }
    }
}

/// Whether the keys of members ascend.
pub open spec fn in_order(members: Seq<(Seq<char>, JsonView)>) -> bool {
    forall|i: int, j: int|
        0 <= i < j < members.len() ==> text::text_less(
            (#[trigger] members[i]).0,
            (#[trigger] members[j]).0,
        )
}

/// Members that are put stay in the order of their keys, each key once.
pub proof fn members_stay_in_order(
    members: Seq<(Seq<char>, JsonView)>,
    key: Seq<char>,
    value: JsonView,
)
    requires
        in_order(members),
    ensures
        in_order(put(members, key, value)),
        forall|i: int|
            0 <= i < put(members, key, value).len() ==> ((#[trigger] put(members, key, value)[i]).0
                == key || exists|j: int|
                0 <= j < members.len() && (#[trigger] members[j]).0 == put(members, key, value)[i].0),
    decreases members.len(),
{
    let now = put(members, key, value);
    if members.len() > 0 {
        let rest = members.skip(1);
        if members[0].0 == key {
            assert forall|i: int, j: int| 0 <= i < j < now.len() implies text::text_less(
                (#[trigger] now[i]).0,
                (#[trigger] now[j]).0,
            ) by {
                assert(now[i].0 == members[i].0 && now[j].0 == members[j].0);
            }
            assert forall|i: int| 0 <= i < now.len() implies ((#[trigger] now[i]).0 == key || exists|j: int|
                0 <= j < members.len() && (#[trigger] members[j]).0 == now[i].0) by {
                assert(now[i].0 == members[i].0);
            }
        } else if text::text_less(key, members[0].0) {
            assert forall|i: int, j: int| 0 <= i < j < now.len() implies text::text_less(
                (#[trigger] now[i]).0,
                (#[trigger] now[j]).0,
            ) by {
                assert(now[j] == members[j - 1]);
                if i > 0 {
                    assert(now[i] == members[i - 1]);
                } else if j > 1 {
                    sorted_texts::text_order_is_transitive(key, members[0].0, members[j - 1].0);
                }
            }
            assert forall|i: int| 0 <= i < now.len() implies ((#[trigger] now[i]).0 == key || exists|j: int|
                0 <= j < members.len() && (#[trigger] members[j]).0 == now[i].0) by {
                if i > 0 {
                    assert(now[i] == members[i - 1]);
                }
            }
        } else {
            assert forall|i: int, j: int| 0 <= i < j < rest.len() implies text::text_less(
                (#[trigger] rest[i]).0,
                (#[trigger] rest[j]).0,
            ) by {
                assert(rest[i] == members[i + 1] && rest[j] == members[j + 1]);
            }
            members_stay_in_order(rest, key, value);
            let behind = put(rest, key, value);
            sorted_texts::text_order_is_total(key, members[0].0);
            assert forall|i: int, j: int| 0 <= i < j < now.len() implies text::text_less(
                (#[trigger] now[i]).0,
                (#[trigger] now[j]).0,
            ) by {
                assert(now[j] == behind[j - 1]);
                if i > 0 {
                    assert(now[i] == behind[i - 1]);
                } else if behind[j - 1].0 != key {
                    let k = choose|k: int|
                        0 <= k < rest.len() && (#[trigger] rest[k]).0 == behind[j - 1].0;
                    assert(rest[k] == members[k + 1]);
                }
            }
            assert forall|i: int| 0 <= i < now.len() implies ((#[trigger] now[i]).0 == key || exists|j: int|
                0 <= j < members.len() && (#[trigger] members[j]).0 == now[i].0) by {
                if i == 0 {
                    assert(now[0] == members[0]);
                } else {
                    assert(now[i] == behind[i - 1]);
                    if behind[i - 1].0 != key {
                        let k = choose|k: int|
                            0 <= k < rest.len() && (#[trigger] rest[k]).0 == behind[i - 1].0;
                        assert(rest[k] == members[k + 1]);
                    }
                }
            }
        }
    }
}

/// A whole number that is written is read as the same number.
pub proof fn whole_numbers_read_back(n: i64, count: u64)
    ensures
        int_view(n).as_int() == Some(n as int),
        count <= i64::MAX ==> count_view(count).as_int() == Some(count as int),
        count > i64::MAX ==> count_view(count).as_int() is None,
{
}

} // verus!
