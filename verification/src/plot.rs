//! The chart of rate against precision: which points are on it, and the drawing.
use vstd::prelude::*;

use crate::float_bits::{self, below64, finite64};
use crate::json::{self, Json, JsonView};
use crate::json_parse::{self, parse_json};
use crate::json_text;
use crate::text::{self, debug_text, decimal_text, join_texts, same_text};

verus! {

/// The bit pattern of the finite double-precision number that a text is read as, where it is read as
/// one.
pub uninterp spec fn double_of(s: Seq<char>) -> Option<u64>;

/// `str::parse` to a double-precision number, taken through `serde_json::Number::from_f64` and
/// `Number::as_f64`, which keep it where it is finite and give nothing where it is not: its bit
/// pattern, a function of the text alone.
#[verifier::external_body]
fn read_double(s: &str) -> (r: Option<u64>)
    ensures
        r == double_of(s@),
        r matches Some(b) ==> float_bits::is_finite64(b),
{
    let number: Option<serde_json::Number> = s.parse().ok().and_then(serde_json::Number::from_f64);
    number?.as_f64().map(|v| v.to_bits())
}

/// One point of a chart: the bit patterns of a precision and of a rate.
#[derive(Debug, Clone, Copy, PartialEq, Eq, Structural)]
pub struct Point {
    pub precision: u64,
    pub qps: u64,
}

/// The bit pattern of a JSON number.
pub open spec fn number_of(v: JsonView) -> Option<u64> {
    match v {
        JsonView::Number(n) => double_of(json_text::number_text(n)),
        _ => None,
    }
}

/// The point of two numbers, where both are there and finite.
pub open spec fn finite_point(precision: Option<u64>, qps: Option<u64>) -> Option<Point> {
    match (precision, qps) {
        (Some(p), Some(q)) => if float_bits::is_finite64(p) && float_bits::is_finite64(q) {
            Some(Point { precision: p, qps: q })
        } else {
            None
        },
        _ => None,
    }
}

/// The number under a key of a value, where there is one.
pub open spec fn number_under(v: JsonView, key: Seq<char>) -> Option<u64> {
    match v.member(key) {
        Some(n) => number_of(n),
        None => None,
    }
}

/// The points among the first `n` members of a summary by precision: the key is the precision.
pub open spec fn keyed_points(members: Seq<(Seq<char>, JsonView)>, n: int) -> Seq<Point>
    decreases n,
{
    if n <= 0 {
        Seq::empty()
    } else {
        let (key, v) = members[n - 1];
        match finite_point(double_of(key), number_under(v, "QPS"@)) {
            Some(p) => keyed_points(members, n - 1).push(p),
            None => keyed_points(members, n - 1),
        }
    }
}

/// The precision of a search in a summary. The second key is what older summaries have.
pub open spec fn listed_precision(v: JsonView) -> Option<u64> {
    match v.member("mean_precision_at_returned"@) {
        Some(n) => number_of(n),
        None => number_under(v, "mean_precisions"@),
    }
}

/// The points among the first `n` searches of a summary.
pub open spec fn listed_points(items: Seq<JsonView>, n: int) -> Seq<Point>
    decreases n,
{
    if n <= 0 {
        Seq::empty()
    } else {
        match finite_point(listed_precision(items[n - 1]), number_under(items[n - 1], "rps"@)) {
            Some(p) => listed_points(items, n - 1).push(p),
            None => listed_points(items, n - 1),
        }
    }
}

/// The points of a summary: those by precision, or those of its searches where there are none.
pub open spec fn points_of(summary: JsonView) -> Seq<Point> {
    let keyed = match summary.member("precision_summary"@) {
        Some(JsonView::Object(members)) => keyed_points(members, members.len() as int),
        _ => Seq::empty(),
    };
    if keyed.len() > 0 {
        keyed
    } else {
        match summary.member("search_results"@) {
            Some(JsonView::Array(items)) => listed_points(items, items.len() as int),
            _ => Seq::empty(),
        }
    }
}

/// The bit pattern of a JSON number.
fn read_number(v: &Json) -> (r: Option<u64>)
    ensures
        r == number_of(v@),
{
    match v {
        Json::Number(n) => {
            assert(v@ == JsonView::Number(n@));
            read_double(json_text::number(n).as_str())
        },
        _ => None,
    }
}

/// The number under a key of a value, where there is one.
fn read_member(v: &Json, key: &str) -> (r: Option<u64>)
    ensures
        r == number_under(v@, key@),
{
    match v.get(key) {
        Some(n) => read_number(n),
        None => None,
    }
}

/// The point of two numbers, where both are there and finite.
fn new_point(precision: Option<u64>, qps: Option<u64>) -> (r: Option<Point>)
    ensures
        r == finite_point(precision, qps),
{
    match (precision, qps) {
        (Some(p), Some(q)) => if finite64(p) && finite64(q) {
            Some(Point { precision: p, qps: q })
        } else {
            None
        },
        _ => None,
    }
}

/// The points of a summary that are finite numbers.
pub fn parse_points(summary: &Json) -> (r: Vec<Point>)
    ensures
        r@ == points_of(summary@),
{
    broadcast use {json::lemma_object_view, json::lemma_array_view};

    let mut points: Vec<Point> = Vec::new();
    if let Some(v) = summary.get("precision_summary") {
        if let Some(members) = v.as_object() {
            let mut i: usize = 0;
            let ghost views = json::members_view(members@);
            while i < members.len()
                invariant
                    i <= members@.len(),
                    views == json::members_view(members@),
                    points@ == keyed_points(views, i as int),
                decreases members@.len() - i,
            {
                assert(views[i as int] == (members@[i as int].0@, members@[i as int].1@));
                let precision: Option<u64> = read_double(members[i].0.as_str());
                let qps: Option<u64> = read_member(&members[i].1, "QPS");
                if let Some(p) = new_point(precision, qps) {
                    points.push(p);
                }
                i += 1;
            }
            if points.len() > 0 {
                return points;
            }
        }
    }
    if let Some(v) = summary.get("search_results") {
        if let Some(items) = v.as_array() {
            let mut i: usize = 0;
            let ghost views = json::items_view(items@);
            while i < items.len()
                invariant
                    i <= items@.len(),
                    views == json::items_view(items@),
                    points@ == listed_points(views, i as int),
                decreases items@.len() - i,
            {
                assert(views[i as int] == items@[i as int]@);
                let precision: Option<u64> = match items[i].get("mean_precision_at_returned") {
                    Some(n) => read_number(n),
                    None => read_member(&items[i], "mean_precisions"),
                };
                let qps: Option<u64> = read_member(&items[i], "rps");
                if let Some(p) = new_point(precision, qps) {
                    points.push(p);
                }
                i += 1;
            }
        }
    }
    points
}

/// Every point of a chart is finite.
pub proof fn charted_points_are_finite(summary: JsonView, i: int)
    requires
        0 <= i < points_of(summary).len(),
    ensures
        float_bits::is_finite64(points_of(summary)[i].precision),
        float_bits::is_finite64(points_of(summary)[i].qps),
{
    if let Some(JsonView::Object(members)) = summary.member("precision_summary"@) {
        lemma_keyed_points(members, members.len() as int);
    }
    if let Some(JsonView::Array(items)) = summary.member("search_results"@) {
        lemma_listed_points(items, items.len() as int);
    }
}

/// The points by precision are finite.
proof fn lemma_keyed_points(members: Seq<(Seq<char>, JsonView)>, n: int)
    ensures
        forall|i: int|
            0 <= i < keyed_points(members, n).len() ==> float_bits::is_finite64(
                (#[trigger] keyed_points(members, n)[i]).precision,
            ) && float_bits::is_finite64(keyed_points(members, n)[i].qps),
    decreases n,
{
    if n > 0 {
        lemma_keyed_points(members, n - 1);
        let before = keyed_points(members, n - 1);
        let all = keyed_points(members, n);
        assert forall|i: int| 0 <= i < all.len() implies float_bits::is_finite64(
            (#[trigger] all[i]).precision,
        ) && float_bits::is_finite64(all[i].qps) by {
            if i < before.len() {
                assert(all[i] == before[i]);
            }
        }
    }
}

/// The points of searches are finite.
proof fn lemma_listed_points(items: Seq<JsonView>, n: int)
    ensures
        forall|i: int|
            0 <= i < listed_points(items, n).len() ==> float_bits::is_finite64(
                (#[trigger] listed_points(items, n)[i]).precision,
            ) && float_bits::is_finite64(listed_points(items, n)[i].qps),
    decreases n,
{
    if n > 0 {
        lemma_listed_points(items, n - 1);
        let before = listed_points(items, n - 1);
        let all = listed_points(items, n);
        assert forall|i: int| 0 <= i < all.len() implies float_bits::is_finite64(
            (#[trigger] all[i]).precision,
        ) && float_bits::is_finite64(all[i].qps) by {
            if i < before.len() {
                assert(all[i] == before[i]);
            }
        }
    }
}

/// Whether a point is that of a member of a summary by precision: the key reads as its precision, and the
/// member's own rate as its rate.
pub open spec fn is_point_of_member(member: (Seq<char>, JsonView), p: Point) -> bool {
    &&& double_of(member.0) == Some(p.precision)
    &&& member.1.member("QPS"@) matches Some(JsonView::Number(n))
    &&& double_of(json_text::number_text(n)) == Some(p.qps)
}

/// Whether a point is that of a search: the precision of the search under the name that summaries have for
/// it, or under the one that older summaries have, reads as its precision, and the search's own rate as its
/// rate.
pub open spec fn is_point_of_search(search: JsonView, p: Point) -> bool {
    &&& (match search.member("mean_precision_at_returned"@) {
        Some(v) => v,
        None => search.member("mean_precisions"@)->0,
    }) matches JsonView::Number(m)
    &&& search.member("mean_precision_at_returned"@) is None ==> search.member(
        "mean_precisions"@,
    ) is Some
    &&& double_of(json_text::number_text(m)) == Some(p.precision)
    &&& search.member("rps"@) matches Some(JsonView::Number(n))
    &&& double_of(json_text::number_text(n)) == Some(p.qps)
}

/// Every point of a summary by precision comes from one member, and every member with a finite precision and
/// a finite rate of its own gives one, in the order of the members.
pub proof fn points_come_from_their_members(members: Seq<(Seq<char>, JsonView)>, n: int) -> (at: Seq<int>)
    requires
        0 <= n <= members.len(),
    ensures
        at.len() == keyed_points(members, n).len(),
        forall|j: int|
            0 <= j < at.len() ==> 0 <= #[trigger] at[j] < n && is_point_of_member(
                members[at[j]],
                keyed_points(members, n)[j],
            ),
        forall|j: int, l: int| 0 <= j < l < at.len() ==> at[j] < at[l],
        forall|i: int, p: Point|
            0 <= i < n && #[trigger] is_point_of_member(members[i], p) && float_bits::is_finite64(p.precision)
                && float_bits::is_finite64(p.qps) ==> at.contains(i),
    decreases n,
{
    if n <= 0 {
        Seq::empty()
    } else {
        let before = points_come_from_their_members(members, n - 1);
        let last = members[n - 1];
        let all = keyed_points(members, n);
        if all.len() > before.len() {
            let at = before.push(n - 1);
            assert forall|j: int| 0 <= j < at.len() implies 0 <= #[trigger] at[j] < n && is_point_of_member(
                members[at[j]],
                all[j],
            ) by {
                if j < before.len() {
                    assert(at[j] == before[j]);
                }
            }
            assert forall|i: int, p: Point|
                0 <= i < n && #[trigger] is_point_of_member(members[i], p) && float_bits::is_finite64(
                    p.precision,
                ) && float_bits::is_finite64(p.qps) implies at.contains(i) by {
                if i < n - 1 {
                    assert(before.contains(i));
                    let j = choose|j: int| 0 <= j < before.len() && before[j] == i;
                    assert(at[j] == i);
                } else {
                    assert(at[before.len() as int] == i);
                }
            }
            at
        } else {
            before
        }
    }
}

/// Every point of the searches of a summary comes from one search, and every search with a finite precision
/// and a finite rate of its own gives one, in the order of the searches.
pub proof fn points_come_from_their_searches(items: Seq<JsonView>, n: int) -> (at: Seq<int>)
    requires
        0 <= n <= items.len(),
    ensures
        at.len() == listed_points(items, n).len(),
        forall|j: int|
            0 <= j < at.len() ==> 0 <= #[trigger] at[j] < n && is_point_of_search(
                items[at[j]],
                listed_points(items, n)[j],
            ),
        forall|j: int, l: int| 0 <= j < l < at.len() ==> at[j] < at[l],
        forall|i: int, p: Point|
            0 <= i < n && #[trigger] is_point_of_search(items[i], p) && float_bits::is_finite64(p.precision)
                && float_bits::is_finite64(p.qps) ==> at.contains(i),
    decreases n,
{
    if n <= 0 {
        Seq::empty()
    } else {
        let before = points_come_from_their_searches(items, n - 1);
        let last = items[n - 1];
        let all = listed_points(items, n);
        if all.len() > before.len() {
            let at = before.push(n - 1);
            assert forall|j: int| 0 <= j < at.len() implies 0 <= #[trigger] at[j] < n && is_point_of_search(
                items[at[j]],
                all[j],
            ) by {
                if j < before.len() {
                    assert(at[j] == before[j]);
                }
            }
            assert forall|i: int, p: Point|
                0 <= i < n && #[trigger] is_point_of_search(items[i], p) && float_bits::is_finite64(
                    p.precision,
                ) && float_bits::is_finite64(p.qps) implies at.contains(i) by {
                if i < n - 1 {
                    assert(before.contains(i));
                    let j = choose|j: int| 0 <= j < before.len() && before[j] == i;
                    assert(at[j] == i);
                } else {
                    assert(at[before.len() as int] == i);
                }
            }
            at
        } else {
            before
        }
    }
}

/// The points of a summary are those of its members by precision; where these give none, those of its
/// searches.
pub proof fn precisions_go_before_searches(summary: JsonView)
    ensures
        summary.member("precision_summary"@) matches Some(JsonView::Object(members)) && keyed_points(
            members,
            members.len() as int,
        ).len() > 0 ==> points_of(summary) == keyed_points(
            summary.member("precision_summary"@)->0->Object_0,
            summary.member("precision_summary"@)->0->Object_0.len() as int,
        ),
        !(summary.member("precision_summary"@) matches Some(JsonView::Object(members))
            && keyed_points(members, members.len() as int).len() > 0) ==> points_of(summary)
            == match summary.member("search_results"@) {
            Some(JsonView::Array(items)) => listed_points(items, items.len() as int),
            _ => Seq::empty(),
        },
{
}

/// What is warned of a summary that does not say what its precisions are.
pub fn schema_warning(summary: &Json) -> (r: Option<&'static str>)
    ensures
        r is None == summary@.member("metrics_schema_version"@) is Some,
        r matches Some(m) ==> m@
            == "WARNING: summary has no `metrics_schema_version` — its precision values are either ours from before the #217 rename (precision = hits / results returned) or upstream's (recall@top = hits / top). They are plotted on the same axis; re-run the benchmark to get an unambiguous summary."@,
{
    match summary.get("metrics_schema_version") {
        Some(_) => None,
        None => Some(
            "WARNING: summary has no `metrics_schema_version` — its precision values are either ours from before the #217 rename (precision = hits / results returned) or upstream's (recall@top = hits / top). They are plotted on the same axis; re-run the benchmark to get an unambiguous summary.",
        ),
    }
}

/// An ascending list with `p` behind all that are not more precise.
pub open spec fn put_point(list: Seq<Point>, p: Point) -> Seq<Point>
    decreases list.len(),
{
    if list.len() == 0 {
        seq![p]
    } else if float_bits::less64(p.precision, list.last().precision) {
        put_point(list.drop_last(), p).push(list.last())
    } else {
        list.push(p)
    }
}

/// The first `n` points by ascending precision; equal ones in their order.
pub open spec fn by_precision(points: Seq<Point>, n: int) -> Seq<Point>
    decreases n,
{
    if n <= 0 {
        Seq::empty()
    } else {
        put_point(by_precision(points, n - 1), points[n - 1])
    }
}

/// Where a point is put.
proof fn lemma_point_place(list: Seq<Point>, p: Point, at: int)
    requires
        0 <= at <= list.len(),
        forall|k: int|
            at <= k < list.len() ==> float_bits::less64(p.precision, (#[trigger] list[k]).precision),
        at > 0 ==> !float_bits::less64(p.precision, list[at - 1].precision),
    ensures
        put_point(list, p) == list.insert(at, p),
    decreases list.len(),
{
    if at == list.len() {
        assert(list.insert(at, p) =~= list.push(p));
        if list.len() == 0 {
            assert(list.push(p) =~= seq![p]);
        }
    } else {
        let front = list.drop_last();
        assert(float_bits::less64(p.precision, list[list.len() - 1].precision));
        assert forall|k: int| at <= k < front.len() implies float_bits::less64(
            p.precision,
            (#[trigger] front[k]).precision,
        ) by {
            assert(list[k] == front[k]);
        }
        lemma_point_place(front, p, at);
        assert(list.insert(at, p) =~= front.insert(at, p).push(list.last()));
    }
}

/// A point that is put stands behind those that are not more precise and before the others.
proof fn lemma_put_point(list: Seq<Point>, p: Point)
    requires
        !float_bits::is_nan64(p.precision),
        forall|i: int| 0 <= i < list.len() ==> !float_bits::is_nan64((#[trigger] list[i]).precision),
        forall|i: int, j: int|
            0 <= i < j < list.len() ==> !float_bits::less64(
                (#[trigger] list[j]).precision,
                (#[trigger] list[i]).precision,
            ),
    ensures
        put_point(list, p).to_multiset() == list.to_multiset().insert(p),
        forall|i: int|
            0 <= i < put_point(list, p).len() ==> !float_bits::is_nan64(
                (#[trigger] put_point(list, p)[i]).precision,
            ) && (put_point(list, p)[i] == p || list.contains(put_point(list, p)[i])),
        forall|i: int, j: int|
            0 <= i < j < put_point(list, p).len() ==> !float_bits::less64(
                (#[trigger] put_point(list, p)[j]).precision,
                (#[trigger] put_point(list, p)[i]).precision,
            ),
    decreases list.len(),
{
    broadcast use vstd::seq_lib::group_to_multiset_ensures;

    let result = put_point(list, p);
    if list.len() == 0 {
        assert(result =~= list.push(p));
    } else if float_bits::less64(p.precision, list.last().precision) {
        let front = list.drop_last();
        let last = list.last();
        assert forall|i: int| 0 <= i < front.len() implies !float_bits::is_nan64(
            (#[trigger] front[i]).precision,
        ) by {
            assert(list[i] == front[i]);
        }
        assert forall|i: int, j: int| 0 <= i < j < front.len() implies !float_bits::less64(
            (#[trigger] front[j]).precision,
            (#[trigger] front[i]).precision,
        ) by {
            assert(list[i] == front[i] && list[j] == front[j]);
        }
        lemma_put_point(front, p);
        let earlier = put_point(front, p);
        assert(list =~= front.push(last));
        assert(result.to_multiset() =~= list.to_multiset().insert(p));
        assert forall|i: int| 0 <= i < result.len() implies !float_bits::is_nan64(
            (#[trigger] result[i]).precision,
        ) && (result[i] == p || list.contains(result[i])) by {
            if i < earlier.len() {
                assert(result[i] == earlier[i]);
                if earlier[i] != p {
                    let k = choose|k: int| 0 <= k < front.len() && front[k] == earlier[i];
                    assert(list[k] == result[i]);
                }
            } else {
                assert(list[list.len() - 1] == result[i]);
            }
        }
        assert forall|i: int, j: int| 0 <= i < j < result.len() implies !float_bits::less64(
            (#[trigger] result[j]).precision,
            (#[trigger] result[i]).precision,
        ) by {
            if j < earlier.len() {
                assert(result[i] == earlier[i] && result[j] == earlier[j]);
            } else {
                assert(result[i] == earlier[i]);
                if earlier[i] != p {
                    let k = choose|k: int| 0 <= k < front.len() && front[k] == earlier[i];
                    assert(list[k] == earlier[i]);
                    assert(list[list.len() - 1] == last);
                }
            }
        }
    } else {
        assert forall|i: int| 0 <= i < result.len() implies !float_bits::is_nan64(
            (#[trigger] result[i]).precision,
        ) && (result[i] == p || list.contains(result[i])) by {
            if i < list.len() {
                assert(list[i] == result[i]);
            }
        }
        assert forall|i: int, j: int| 0 <= i < j < result.len() implies !float_bits::less64(
            (#[trigger] result[j]).precision,
            (#[trigger] result[i]).precision,
        ) by {
            if j < list.len() {
                assert(list[i] == result[i] && list[j] == result[j]);
            } else {
                assert(list[i] == result[i]);
                let last = list[list.len() - 1];
                assert(!float_bits::is_nan64(last.precision));
                if i < list.len() - 1 {
                    assert(!float_bits::less64(last.precision, list[i].precision));
                }
            }
        }
    }
}

/// Points put in order are the same points, each as often, by ascending precision.
pub proof fn sorted_points_ascend(points: Seq<Point>, n: int)
    requires
        0 <= n <= points.len(),
        forall|i: int| 0 <= i < points.len() ==> !float_bits::is_nan64((#[trigger] points[i]).precision),
    ensures
        by_precision(points, n).to_multiset() == points.take(n).to_multiset(),
        forall|i: int, j: int|
            0 <= i < j < by_precision(points, n).len() ==> !float_bits::less64(
                (#[trigger] by_precision(points, n)[j]).precision,
                (#[trigger] by_precision(points, n)[i]).precision,
            ),
        forall|i: int|
            0 <= i < by_precision(points, n).len() ==> !float_bits::is_nan64(
                (#[trigger] by_precision(points, n)[i]).precision,
            ),
    decreases n,
{
    broadcast use vstd::seq_lib::group_to_multiset_ensures;

    if n > 0 {
        sorted_points_ascend(points, n - 1);
        lemma_put_point(by_precision(points, n - 1), points[n - 1]);
        assert(points.take(n) =~= points.take(n - 1).push(points[n - 1]));
    } else {
        assert(points.take(0) =~= Seq::empty());
    }
}

/// Points by ascending precision, so that the line through them does not turn back.
pub fn sort_points(points: &[Point]) -> (r: Vec<Point>)
    ensures
        r@ == by_precision(points@, points@.len() as int),
{
    let mut r: Vec<Point> = Vec::new();
    let mut i: usize = 0;
    while i < points.len()
        invariant
            i <= points@.len(),
            r@ == by_precision(points@, i as int),
        decreases points@.len() - i,
    {
        let p: Point = points[i];
        let mut at: usize = r.len();
        while at > 0 && below64(p.precision, r[at - 1].precision)
            invariant
                at <= r@.len(),
                forall|k: int|
                    at <= k < r@.len() ==> float_bits::less64(
                        p.precision,
                        (#[trigger] r@[k]).precision,
                    ),
            decreases at,
        {
            at -= 1;
        }
        proof {
            lemma_point_place(r@, p, at as int);
        }
        r.insert(at, p);
        i += 1;
    }
    r
}

/// The engine and the dataset of a summary, where both are named.
pub open spec fn names_of(summary: JsonView) -> Option<(Seq<char>, Seq<char>)> {
    match (summary.member("engine"@), summary.member("dataset"@)) {
        (Some(JsonView::Text(e)), Some(JsonView::Text(d))) => if e.len() > 0 && d.len() > 0 {
            Some((e, d))
        } else {
            None
        },
        _ => None,
    }
}

/// The engine and the dataset of a summary, where both are named.
pub fn summary_names(summary: &Json) -> (r: Option<(String, String)>)
    ensures
        match names_of(summary@) {
            Some(n) => r matches Some(x) && x.0@ == n.0 && x.1@ == n.1,
            None => r is None,
        },
{
    let engine: &str = match summary.get("engine") {
        Some(v) => match v.as_str() {
            Some(t) => t,
            None => return None,
        },
        None => return None,
    };
    let dataset: &str = match summary.get("dataset") {
        Some(v) => match v.as_str() {
            Some(t) => t,
            None => return None,
        },
        None => return None,
    };
    if text::chars_of(engine).len() == 0 || text::chars_of(dataset).len() == 0 {
        return None;
    }
    Some((engine.to_owned(), dataset.to_owned()))
}

/// Adds a name to a list where it is not there yet.
pub fn note_dataset(seen: &mut Vec<String>, name: &str)
    ensures
        text::texts_view(final(seen)@) == if text::texts_view(old(seen)@).contains(name@) {
            text::texts_view(old(seen)@)
        } else {
            text::texts_view(old(seen)@).push(name@)
        },
{
    let ghost views = text::texts_view(seen@);
    let mut i: usize = 0;
    while i < seen.len()
        invariant
            i <= seen@.len(),
            views == text::texts_view(seen@),
            forall|j: int| 0 <= j < i ==> #[trigger] views[j] != name@,
        decreases seen@.len() - i,
    {
        assert(views[i as int] == seen@[i as int]@);
        if same_text(seen[i].as_str(), name) {
            return;
        }
        i += 1;
    }
    seen.push(name.to_owned());
    assert(text::texts_view(seen@) =~= views.push(name@));
}

/// The label of a series: the engine, with the dataset where several are drawn.
pub fn series_label(engine: &str, dataset: &str, datasets: usize) -> (r: String)
    ensures
        datasets > 1 ==> r@ == engine@ + " ("@ + dataset@ + ")"@,
        datasets <= 1 ==> r@ == engine@,
{
    let mut r: String = engine.to_owned();
    if datasets > 1 {
        r.append(" (");
        r.append(dataset);
        r.append(")");
    }
    r
}

/// The title of a chart: the dataset, or how many there are.
pub fn chart_title(datasets: &[String]) -> (r: String)
    ensures
        datasets@.len() == 1 ==> r@ == "QPS vs Precision — "@ + datasets@[0]@,
        datasets@.len() != 1 ==> r@ == "QPS vs Precision — "@ + text::decimal(datasets@.len())
            + " datasets"@,
{
    let mut r: String = "QPS vs Precision — ".to_owned();
    if datasets.len() == 1 {
        r.append(datasets[0].as_str());
    } else {
        r.append(decimal_text(datasets.len() as u64).as_str());
        r.append(" datasets");
    }
    r
}

/// Texts as the standard library shows a list of them for debugging.
pub open spec fn shown_list(texts: Seq<Seq<char>>) -> Seq<char> {
    "["@ + text::joined(Seq::new(texts.len(), |i: int| text::debug_shown(texts[i])), ", "@) + "]"@
}

/// Texts as the standard library shows a list of them for debugging.
fn show_list(texts: &[String]) -> (r: String)
    ensures
        r@ == shown_list(text::texts_view(texts@)),
{
    let mut parts: Vec<String> = Vec::new();
    let mut i: usize = 0;
    let ghost views = text::texts_view(texts@);
    while i < texts.len()
        invariant
            i <= texts@.len(),
            views == text::texts_view(texts@),
            parts@.len() == i,
            forall|j: int| 0 <= j < i ==> (#[trigger] parts@[j])@ == text::debug_shown(views[j]),
        decreases texts@.len() - i,
    {
        parts.push(debug_text(texts[i].as_str()));
        i += 1;
    }
    assert(text::texts_view(parts@) =~= Seq::new(
        views.len(),
        |j: int| text::debug_shown(views[j]),
    ));
    let mut r: String = "[".to_owned();
    r.append(join_texts(parts.as_slice(), ", ").as_str());
    r.append("]");
    r
}

/// What is said where no summary is drawn.
pub fn no_series_error(engines: &[String], datasets: &[String]) -> (r: String)
    ensures
        r@ == "No summaries matched engines="@ + shown_list(text::texts_view(engines@))
            + " datasets="@ + shown_list(text::texts_view(datasets@)) + "."@,
{
    let mut r: String = "No summaries matched engines=".to_owned();
    r.append(show_list(engines).as_str());
    r.append(" datasets=");
    r.append(show_list(datasets).as_str());
    r.append(".");
    r
}

/// A series of a chart: its label, and its points by ascending precision.
pub struct Series {
    pub label: String,
    pub points: Vec<Point>,
}

/// A chart: its title and its series, and how many datasets they are of.
pub struct Chart {
    pub title: String,
    pub series: Vec<Series>,
    pub datasets: usize,
}

/// Whether a summary is drawn: it is asked for, names its engine and dataset, and has a point.
pub open spec fn is_drawn(summary: JsonView, wanted: bool) -> bool {
    wanted && names_of(summary) is Some && points_of(summary).len() > 0
}

/// The summaries among the first `n` that are drawn.
pub open spec fn drawn_summaries(
    summaries: Seq<JsonView>,
    wanted: Seq<bool>,
    n: int,
) -> Seq<JsonView>
    decreases n,
{
    if n <= 0 {
        Seq::empty()
    } else if is_drawn(summaries[n - 1], wanted[n - 1]) {
        drawn_summaries(summaries, wanted, n - 1).push(summaries[n - 1])
    } else {
        drawn_summaries(summaries, wanted, n - 1)
    }
}

/// The datasets of the first `n` drawn summaries, each once, in the order of the summaries.
pub open spec fn drawn_datasets(drawn: Seq<JsonView>, n: int) -> Seq<Seq<char>>
    decreases n,
{
    if n <= 0 {
        Seq::empty()
    } else {
        let before = drawn_datasets(drawn, n - 1);
        let name = names_of(drawn[n - 1])->Some_0.1;
        if before.contains(name) {
            before
        } else {
            before.push(name)
        }
    }
}

/// The label of a series.
pub open spec fn label_of(engine: Seq<char>, dataset: Seq<char>, datasets: nat) -> Seq<char> {
    if datasets > 1 {
        engine + " ("@ + dataset + ")"@
    } else {
        engine
    }
}

/// The title of a chart.
pub open spec fn title_of(datasets: Seq<Seq<char>>) -> Seq<char> {
    if datasets.len() == 1 {
        "QPS vs Precision — "@ + datasets[0]
    } else {
        "QPS vs Precision — "@ + text::decimal(datasets.len()) + " datasets"@
    }
}

/// Whether a series is that of a summary.
pub open spec fn is_series_of(s: Series, summary: JsonView, datasets: nat) -> bool {
    &&& s.label@ == label_of(
        names_of(summary)->Some_0.0,
        names_of(summary)->Some_0.1,
        datasets,
    )
    &&& s.points@ == by_precision(points_of(summary), points_of(summary).len() as int)
}

/// The datasets of the first drawn summaries do not change with those behind them.
proof fn lemma_drawn_datasets(drawn: Seq<JsonView>, more: JsonView, n: int)
    requires
        0 <= n <= drawn.len(),
    ensures
        drawn_datasets(drawn.push(more), n) == drawn_datasets(drawn, n),
    decreases n,
{
    if n > 0 {
        lemma_drawn_datasets(drawn, more, n - 1);
    }
}

/// Whether `r` is the chart of some summaries, or the error that none is drawn.
pub open spec fn is_chart_of(
    summaries: Seq<JsonView>,
    wanted: Seq<bool>,
    engines: Seq<Seq<char>>,
    datasets: Seq<Seq<char>>,
    r: Result<Chart, String>,
) -> bool {
    let drawn = drawn_summaries(summaries, wanted, summaries.len() as int);
    let seen = drawn_datasets(drawn, drawn.len() as int);
    if drawn.len() == 0 {
        r matches Err(e) && e@ == "No summaries matched engines="@ + shown_list(engines)
            + " datasets="@ + shown_list(datasets) + "."@
    } else {
        r matches Ok(c) && c.title@ == title_of(seen) && c.datasets == seen.len() && c.series@.len()
            == drawn.len() && forall|i: int|
            0 <= i < drawn.len() ==> is_series_of(#[trigger] c.series@[i], drawn[i], seen.len())
    }
}

/// The chart of some summaries. `wanted` says of each whether its engine and dataset are asked for; where
/// none is drawn, the error names the patterns that were asked for.
pub fn chart_of(
    summaries: &[Json],
    wanted: &[bool],
    engines: &[String],
    datasets: &[String],
) -> (r: Result<Chart, String>)
    requires
        wanted@.len() == summaries@.len(),
    ensures
        is_chart_of(
            json::items_view(summaries@),
            wanted@,
            text::texts_view(engines@),
            text::texts_view(datasets@),
            r,
        ),
{
    let ghost views = json::items_view(summaries@);
    let mut seen: Vec<String> = Vec::new();
    let mut names: Vec<(String, String)> = Vec::new();
    let mut points: Vec<Vec<Point>> = Vec::new();
    let ghost mut drawn: Seq<JsonView> = Seq::empty();
    let mut i: usize = 0;
    assert(text::texts_view(seen@) =~= Seq::empty());
    while i < summaries.len()
        invariant
            i <= summaries@.len(),
            wanted@.len() == summaries@.len(),
            views == json::items_view(summaries@),
            drawn == drawn_summaries(views, wanted@, i as int),
            text::texts_view(seen@) == drawn_datasets(drawn, drawn.len() as int),
            names@.len() == drawn.len(),
            points@.len() == drawn.len(),
            forall|k: int|
                0 <= k < drawn.len() ==> names_of(#[trigger] drawn[k]) == Some(
                    (names@[k].0@, names@[k].1@),
                ),
            forall|k: int|
                0 <= k < drawn.len() ==> (#[trigger] points@[k])@ == by_precision(
                    points_of(drawn[k]),
                    points_of(drawn[k]).len() as int,
                ),
        decreases summaries@.len() - i,
    {
        assert(views[i as int] == summaries@[i as int]@);
        if wanted[i] {
            if let Some((engine, dataset)) = summary_names(&summaries[i]) {
                let found: Vec<Point> = parse_points(&summaries[i]);
                if found.len() > 0 {
                    note_dataset(&mut seen, dataset.as_str());
                    points.push(sort_points(found.as_slice()));
                    names.push((engine, dataset));
                    proof {
                        let before = drawn;
                        lemma_drawn_datasets(before, views[i as int], before.len() as int);
                        drawn = before.push(views[i as int]);
                        assert forall|k: int| 0 <= k < drawn.len() implies names_of(
                            #[trigger] drawn[k],
                        ) == Some((names@[k].0@, names@[k].1@)) by {
                            if k < before.len() {
                                assert(drawn[k] == before[k]);
                            }
                        }
                    }
                }
            }
        }
        i += 1;
    }
    if names.len() == 0 {
        return Err(no_series_error(engines, datasets));
    }
    assert(text::texts_view(seen@).len() == seen@.len());
    let mut series: Vec<Series> = Vec::new();
    let mut k: usize = 0;
    while k < names.len()
        invariant
            k <= names@.len(),
            names@.len() == drawn.len(),
            points@.len() == drawn.len(),
            forall|x: int|
                0 <= x < drawn.len() ==> names_of(#[trigger] drawn[x]) == Some(
                    (names@[x].0@, names@[x].1@),
                ),
            forall|x: int|
                k <= x < drawn.len() ==> (#[trigger] points@[x])@ == by_precision(
                    points_of(drawn[x]),
                    points_of(drawn[x]).len() as int,
                ),
            series@.len() == k,
            forall|x: int|
                0 <= x < k ==> is_series_of(#[trigger] series@[x], drawn[x], seen@.len()),
        decreases names@.len() - k,
    {
        let ghost summary = drawn[k as int];
        let label: String = series_label(names[k].0.as_str(), names[k].1.as_str(), seen.len());
        let mut own: Vec<Point> = Vec::new();
        std::mem::swap(&mut own, &mut points[k]);
        series.push(Series { label, points: own });
        k += 1;
    }
    assert(seen@.len() == 1 ==> text::texts_view(seen@)[0] == seen@[0]@);
    Ok(Chart { title: chart_title(seen.as_slice()), series, datasets: seen.len() })
}

/// The summaries among the first `n` texts: those that are JSON.
pub open spec fn parsed_summaries(texts: Seq<Seq<char>>, n: int) -> Seq<JsonView>
    decreases n,
{
    if n <= 0 {
        Seq::empty()
    } else {
        match json_parse::parsed_json(texts[n - 1]) {
            Ok(v) => parsed_summaries(texts, n - 1).push(v),
            Err(_) => parsed_summaries(texts, n - 1),
        }
    }
}

/// Of each of these, whether it is asked for.
pub open spec fn parsed_wanted(texts: Seq<Seq<char>>, wanted: Seq<bool>, n: int) -> Seq<bool>
    decreases n,
{
    if n <= 0 {
        Seq::empty()
    } else {
        match json_parse::parsed_json(texts[n - 1]) {
            Ok(_) => parsed_wanted(texts, wanted, n - 1).push(wanted[n - 1]),
            Err(_) => parsed_wanted(texts, wanted, n - 1),
        }
    }
}

/// The chart of the summaries that texts hold. A text that is no JSON is passed over. `wanted` says of
/// each text whether the engine and dataset of its summary are asked for.
pub fn collect_series(
    texts: &[String],
    wanted: &[bool],
    engines: &[String],
    datasets: &[String],
) -> (r: Result<Chart, String>)
    requires
        wanted@.len() == texts@.len(),
    ensures
        is_chart_of(
            parsed_summaries(text::texts_view(texts@), texts@.len() as int),
            parsed_wanted(text::texts_view(texts@), wanted@, texts@.len() as int),
            text::texts_view(engines@),
            text::texts_view(datasets@),
            r,
        ),
{
    let ghost views = text::texts_view(texts@);
    let mut summaries: Vec<Json> = Vec::new();
    let mut asked_for: Vec<bool> = Vec::new();
    let mut i: usize = 0;
    assert(json::items_view(summaries@) =~= Seq::empty());
    while i < texts.len()
        invariant
            i <= texts@.len(),
            wanted@.len() == texts@.len(),
            views == text::texts_view(texts@),
            asked_for@.len() == summaries@.len(),
            json::items_view(summaries@) == parsed_summaries(views, i as int),
            asked_for@ == parsed_wanted(views, wanted@, i as int),
        decreases texts@.len() - i,
    {
        assert(views[i as int] == texts@[i as int]@);
        if let Ok(v) = parse_json(texts[i].as_str()) {
            let ghost before = json::items_view(summaries@);
            let ghost view = v@;
            summaries.push(v);
            asked_for.push(wanted[i]);
            assert(json::items_view(summaries@) =~= before.push(view));
        }
        i += 1;
    }
    chart_of(summaries.as_slice(), asked_for.as_slice(), engines, datasets)
}

/// Whether a text gives a series: it is JSON, it is asked for, and its summary names an engine and a dataset
/// and has a point.
pub open spec fn gives_series(text: Seq<char>, wanted: bool) -> bool {
    &&& wanted
    &&& json_parse::parsed_json(text) matches Ok(summary)
    &&& summary.member("engine"@) matches Some(JsonView::Text(engine))
    &&& summary.member("dataset"@) matches Some(JsonView::Text(dataset))
    &&& engine.len() > 0 && dataset.len() > 0
    &&& points_of(summary).len() > 0
}

/// The summaries that are drawn come from the texts that give a series, in their order.
proof fn lemma_drawn_texts(texts: Seq<Seq<char>>, wanted: Seq<bool>, n: int) -> (at: Seq<int>)
    requires
        0 <= n <= texts.len(),
        wanted.len() == texts.len(),
    ensures
        ({
            let summaries = parsed_summaries(texts, n);
            let drawn = drawn_summaries(
                summaries,
                parsed_wanted(texts, wanted, n),
                summaries.len() as int,
            );
            &&& parsed_wanted(texts, wanted, n).len() == summaries.len()
            &&& at.len() == drawn.len()
            &&& forall|j: int|
                0 <= j < at.len() ==> 0 <= #[trigger] at[j] < n && gives_series(
                    texts[at[j]],
                    wanted[at[j]],
                ) && json_parse::parsed_json(texts[at[j]]) == Ok::<JsonView, Seq<char>>(drawn[j])
            &&& forall|j: int, l: int| 0 <= j < l < at.len() ==> at[j] < at[l]
            &&& forall|i: int|
                0 <= i < n && gives_series(#[trigger] texts[i], wanted[i]) ==> at.contains(i)
        }),
    decreases n,
{
    if n <= 0 {
        Seq::empty()
    } else {
        let before = lemma_drawn_texts(texts, wanted, n - 1);
        let earlier = parsed_summaries(texts, n - 1);
        let asked = parsed_wanted(texts, wanted, n - 1);
        let summaries = parsed_summaries(texts, n);
        let all_asked = parsed_wanted(texts, wanted, n);
        let m = earlier.len() as int;
        if let Ok(v) = json_parse::parsed_json(texts[n - 1]) {
            lemma_drawn_prefix(earlier, asked, v, wanted[n - 1], m);
        }
        let drawn = drawn_summaries(summaries, all_asked, summaries.len() as int);
        if gives_series(texts[n - 1], wanted[n - 1]) {
            let at = before.push(n - 1);
            assert forall|j: int| 0 <= j < at.len() implies 0 <= #[trigger] at[j] < n && gives_series(
                texts[at[j]],
                wanted[at[j]],
            ) && json_parse::parsed_json(texts[at[j]]) == Ok::<JsonView, Seq<char>>(drawn[j]) by {
                if j < before.len() {
                    assert(at[j] == before[j]);
                }
            }
            assert forall|i: int|
                0 <= i < n && gives_series(#[trigger] texts[i], wanted[i]) implies at.contains(i) by {
                if i < n - 1 {
                    assert(before.contains(i));
                    let j = choose|j: int| 0 <= j < before.len() && before[j] == i;
                    assert(at[j] == i);
                } else {
                    assert(at[before.len() as int] == i);
                }
            }
            at
        } else {
            before
        }
    }
}

/// Another summary does not change which of the earlier ones are drawn.
proof fn lemma_drawn_prefix(
    summaries: Seq<JsonView>,
    wanted: Seq<bool>,
    more: JsonView,
    asked: bool,
    n: int,
)
    requires
        0 <= n <= summaries.len(),
        wanted.len() == summaries.len(),
    ensures
        drawn_summaries(summaries.push(more), wanted.push(asked), n) == drawn_summaries(
            summaries,
            wanted,
            n,
        ),
    decreases n,
{
    if n > 0 {
        lemma_drawn_prefix(summaries, wanted, more, asked, n - 1);
    }
}

/// The datasets that are noted are those of the drawn summaries, each once.
proof fn lemma_noted_datasets(drawn: Seq<JsonView>, n: int)
    requires
        0 <= n <= drawn.len(),
    ensures
        drawn_datasets(drawn, n).no_duplicates(),
        drawn_datasets(drawn, n).len() <= n,
        n > 0 ==> drawn_datasets(drawn, n).len() > 0 && drawn_datasets(drawn, n)[0]
            == names_of(drawn[0])->Some_0.1,
        forall|i: int|
            0 <= i < n ==> drawn_datasets(drawn, n).contains(
                names_of(#[trigger] drawn[i])->Some_0.1,
            ),
        forall|d: Seq<char>| #[trigger]
            drawn_datasets(drawn, n).contains(d) ==> exists|i: int|
                0 <= i < n && names_of(#[trigger] drawn[i])->Some_0.1 == d,
    decreases n,
{
    if n > 0 {
        lemma_noted_datasets(drawn, n - 1);
        let before = drawn_datasets(drawn, n - 1);
        let all = drawn_datasets(drawn, n);
        let name = names_of(drawn[n - 1])->Some_0.1;
        assert forall|i: int| 0 <= i < n implies all.contains(
            names_of(#[trigger] drawn[i])->Some_0.1,
        ) by {
            let d = names_of(drawn[i])->Some_0.1;
            if i < n - 1 {
                assert(before.contains(d));
                let k = choose|k: int| 0 <= k < before.len() && before[k] == d;
                assert(all[k] == d);
            } else if !before.contains(name) {
                assert(all[before.len() as int] == d);
            }
        }
        assert forall|d: Seq<char>| #[trigger] all.contains(d) implies exists|i: int|
            0 <= i < n && names_of(#[trigger] drawn[i])->Some_0.1 == d by {
            let k = choose|k: int| 0 <= k < all.len() && all[k] == d;
            if k < before.len() {
                assert(before[k] == d);
                assert(before.contains(d));
                let i = choose|i: int| 0 <= i < n - 1 && names_of(#[trigger] drawn[i])->Some_0.1 == d;
                assert(names_of(drawn[i])->Some_0.1 == d);
            } else {
                assert(names_of(drawn[n - 1])->Some_0.1 == d);
            }
        }
    }
}

/// A chart has one series for every text that gives one, in the order of the texts: under the name of the
/// text's engine, and of its dataset too where there are several, with the points of the text's own summary
/// by ascending precision. It counts the datasets that occur. There is no chart exactly where no text gives
/// a series.
pub proof fn charts_show_every_summary(
    texts: Seq<Seq<char>>,
    wanted: Seq<bool>,
    engines: Seq<Seq<char>>,
    datasets: Seq<Seq<char>>,
    r: Result<Chart, String>,
) -> (at: Seq<int>)
    requires
        wanted.len() == texts.len(),
        is_chart_of(
            parsed_summaries(texts, texts.len() as int),
            parsed_wanted(texts, wanted, texts.len() as int),
            engines,
            datasets,
            r,
        ),
    ensures
        r is Ok <==> exists|i: int| 0 <= i < texts.len() && gives_series(#[trigger] texts[i], wanted[i]),
        r matches Ok(c) ==> {
            &&& at.len() == c.series@.len()
            &&& forall|j: int, l: int| 0 <= j < l < at.len() ==> at[j] < at[l]
            &&& forall|i: int|
                0 <= i < texts.len() && gives_series(#[trigger] texts[i], wanted[i]) ==> at.contains(i)
            &&& forall|j: int|
                0 <= j < at.len() ==> {
                    let text = texts[#[trigger] at[j]];
                    let summary = json_parse::parsed_json(text)->Ok_0;
                    let engine = summary.member("engine"@)->0->Text_0;
                    let dataset = summary.member("dataset"@)->0->Text_0;
                    let points = c.series@[j].points@;
                    &&& 0 <= at[j] < texts.len() && gives_series(text, wanted[at[j]])
                    &&& c.datasets <= 1 ==> c.series@[j].label@ == engine
                    &&& c.datasets > 1 ==> c.series@[j].label@ == engine + " ("@ + dataset + ")"@
                    &&& points.to_multiset() == points_of(summary).to_multiset()
                    &&& forall|x: int, y: int|
                        0 <= x < y < points.len() ==> !float_bits::less64(
                            (#[trigger] points[y]).precision,
                            (#[trigger] points[x]).precision,
                        )
                }
            &&& c.datasets == 1 <==> forall|j: int, l: int|
                0 <= j < at.len() && 0 <= l < at.len() ==> json_parse::parsed_json(
                    texts[#[trigger] at[j]],
                )->Ok_0.member("dataset"@) == json_parse::parsed_json(
                    texts[#[trigger] at[l]],
                )->Ok_0.member("dataset"@)
            &&& c.datasets == 1 ==> c.title@ == "QPS vs Precision — "@ + json_parse::parsed_json(
                texts[at[0]],
            )->Ok_0.member("dataset"@)->0->Text_0
            &&& c.datasets != 1 ==> c.title@ == "QPS vs Precision — "@ + text::decimal(
                c.datasets as nat,
            ) + " datasets"@
        },
{
    let n = texts.len() as int;
    let summaries = parsed_summaries(texts, n);
    let asked = parsed_wanted(texts, wanted, n);
    let drawn = drawn_summaries(summaries, asked, summaries.len() as int);
    let seen = drawn_datasets(drawn, drawn.len() as int);
    let at = lemma_drawn_texts(texts, wanted, n);
    lemma_noted_datasets(drawn, drawn.len() as int);
    if exists|i: int| 0 <= i < texts.len() && gives_series(#[trigger] texts[i], wanted[i]) {
        let i = choose|i: int| 0 <= i < texts.len() && gives_series(#[trigger] texts[i], wanted[i]);
        assert(at.contains(i));
    }
    if let Ok(c) = r {
        assert(gives_series(texts[at[0]], wanted[at[0]]));
        assert forall|j: int| 0 <= j < at.len() implies ({
            let text = texts[#[trigger] at[j]];
            let summary = json_parse::parsed_json(text)->Ok_0;
            let engine = summary.member("engine"@)->0->Text_0;
            let dataset = summary.member("dataset"@)->0->Text_0;
            let points = c.series@[j].points@;
            &&& 0 <= at[j] < texts.len() && gives_series(text, wanted[at[j]])
            &&& c.datasets <= 1 ==> c.series@[j].label@ == engine
            &&& c.datasets > 1 ==> c.series@[j].label@ == engine + " ("@ + dataset + ")"@
            &&& points.to_multiset() == points_of(summary).to_multiset()
            &&& forall|x: int, y: int|
                0 <= x < y < points.len() ==> !float_bits::less64(
                    (#[trigger] points[y]).precision,
                    (#[trigger] points[x]).precision,
                )
        }) by {
            assert(is_series_of(c.series@[j], drawn[j], seen.len()));
            let found = points_of(drawn[j]);
            assert forall|i: int| 0 <= i < found.len() implies !float_bits::is_nan64(
                (#[trigger] found[i]).precision,
            ) by {
                charted_points_are_finite(drawn[j], i);
            }
            sorted_points_ascend(found, found.len() as int);
            assert(found.take(found.len() as int) =~= found);
        }
        assert forall|j: int| 0 <= j < at.len() implies names_of(drawn[j])->Some_0.1
            == json_parse::parsed_json(texts[#[trigger] at[j]])->Ok_0.member("dataset"@)->0->Text_0 by {
            assert(gives_series(texts[at[j]], wanted[at[j]]));
        }
        if c.datasets == 1 {
            assert forall|j: int, l: int|
                0 <= j < at.len() && 0 <= l < at.len() implies json_parse::parsed_json(
                texts[#[trigger] at[j]],
            )->Ok_0.member("dataset"@) == json_parse::parsed_json(
                texts[#[trigger] at[l]],
            )->Ok_0.member("dataset"@) by {
                assert(gives_series(texts[at[j]], wanted[at[j]]));
                assert(gives_series(texts[at[l]], wanted[at[l]]));
                assert(seen.contains(names_of(drawn[j])->Some_0.1));
                assert(seen.contains(names_of(drawn[l])->Some_0.1));
            }
        }
        if forall|j: int, l: int|
            0 <= j < at.len() && 0 <= l < at.len() ==> json_parse::parsed_json(
                texts[#[trigger] at[j]],
            )->Ok_0.member("dataset"@) == json_parse::parsed_json(
                texts[#[trigger] at[l]],
            )->Ok_0.member("dataset"@) {
            if seen.len() > 1 {
                assert(seen.contains(seen[0]));
                assert(seen.contains(seen[1]));
                let j = choose|j: int|
                    0 <= j < drawn.len() && names_of(#[trigger] drawn[j])->Some_0.1 == seen[0];
                let l = choose|l: int|
                    0 <= l < drawn.len() && names_of(#[trigger] drawn[l])->Some_0.1 == seen[1];
                assert(gives_series(texts[at[j]], wanted[at[j]]));
                assert(gives_series(texts[at[l]], wanted[at[l]]));
                assert(false);
            }
        }
    }
    at
}

/// A character as it stands in a drawing.
pub open spec fn escaped_char(c: char) -> Seq<char> {
    if c == '&' {
        "&amp;"@
    } else if c == '<' {
        "&lt;"@
    } else if c == '>' {
        "&gt;"@
    } else {
        seq![c]
    }
}

/// A text as it stands in a drawing.
pub open spec fn escaped(s: Seq<char>) -> Seq<char>
    decreases s.len(),
{
    if s.len() == 0 {
        Seq::empty()
    } else {
        escaped(s.drop_last()) + escaped_char(s.last())
    }
}

/// A text as it stands in a drawing.
pub fn xml_escape(s: &str) -> (r: String)
    ensures
        r@ == escaped(s@),
{
    let chars: Vec<char> = text::chars_of(s);
    let mut r: String = String::new();
    let mut i: usize = 0;
    assert(s@.take(0) =~= Seq::empty());
    while i < chars.len()
        invariant
            i <= chars@.len(),
            chars@ == s@,
            r@ == escaped(s@.take(i as int)),
        decreases chars@.len() - i,
    {
        assert(s@.take(i + 1).drop_last() =~= s@.take(i as int));
        let c: char = chars[i];
        let ghost before = r@;
        if c == '&' {
            r.append("&amp;");
        } else if c == '<' {
            r.append("&lt;");
        } else if c == '>' {
            r.append("&gt;");
        } else {
            r.push(c);
            assert(before.push(c) =~= before + seq![c]);
        }
        i += 1;
    }
    assert(s@.take(i as int) =~= s@);
    r
}

/// The color of a series.
pub open spec fn color(i: int) -> Seq<char> {
    let k = i % 10;
    if k == 0 {
        "#0072b2"@
    } else if k == 1 {
        "#d55e00"@
    } else if k == 2 {
        "#009e73"@
    } else if k == 3 {
        "#cc79a7"@
    } else if k == 4 {
        "#e69f00"@
    } else if k == 5 {
        "#56b4e9"@
    } else if k == 6 {
        "#f0e442"@
    } else if k == 7 {
        "#000000"@
    } else if k == 8 {
        "#8b4513"@
    } else {
        "#7f7f7f"@
    }
}

/// The color of a series.
pub fn palette(i: usize) -> (r: &'static str)
    ensures
        r@ == color(i as int),
{
    let k: usize = i % 10;
    if k == 0 {
        "#0072b2"
    } else if k == 1 {
        "#d55e00"
    } else if k == 2 {
        "#009e73"
    } else if k == 3 {
        "#cc79a7"
    } else if k == 4 {
        "#e69f00"
    } else if k == 5 {
        "#56b4e9"
    } else if k == 6 {
        "#f0e442"
    } else if k == 7 {
        "#000000"
    } else if k == 8 {
        "#8b4513"
    } else {
        "#7f7f7f"
    }
}

/// A line across the chart: its height, the height of its label, and the label.
pub struct RateTick {
    pub y: String,
    pub label_y: String,
    pub label: String,
}

/// A line up the chart: its place and its label.
pub struct PrecisionTick {
    pub x: String,
    pub label: String,
}

/// A series as it is drawn: its label and the places of its points.
pub struct DrawnSeries {
    pub label: String,
    pub points: Vec<(String, String)>,
}

/// A line across the chart with its label.
pub open spec fn rate_tick(y: Seq<char>, label_y: Seq<char>, label: Seq<char>) -> Seq<char> {
    "<line x1=\"70\" y1=\""@
        + y
        + "\" x2=\"690\" y2=\""@
        + y
        + "\" stroke=\"#e6e6e6\"/><text x=\"62.0\" y=\""@
        + label_y
        + "\" font-size=\"11\" text-anchor=\"end\" fill=\"#555\">"@
        + label
        + "</text>"@
}

/// A line across the chart with its label.
fn new_rate_tick(y: &str, label_y: &str, label: &str) -> (m: String)
    ensures
        m@ == rate_tick(y@, label_y@, label@),
{
    let mut m: String = "<line x1=\"70\" y1=\"".to_owned();
    m.append(y);
    m.append("\" x2=\"690\" y2=\"");
    m.append(y);
    m.append("\" stroke=\"#e6e6e6\"/><text x=\"62.0\" y=\"");
    m.append(label_y);
    m.append("\" font-size=\"11\" text-anchor=\"end\" fill=\"#555\">");
    m.append(label);
    m.append("</text>");
    m
}

/// A line up the chart with its label.
pub open spec fn precision_tick(x: Seq<char>, label: Seq<char>) -> Seq<char> {
    "<line x1=\""@
        + x
        + "\" y1=\"50\" x2=\""@
        + x
        + "\" y2=\"500.0\" stroke=\"#f0f0f0\"/><text x=\""@
        + x
        + "\" y=\"520.0\" font-size=\"11\" text-anchor=\"middle\" fill=\"#555\">"@
        + label
        + "</text>"@
}

/// A line up the chart with its label.
fn new_precision_tick(x: &str, label: &str) -> (m: String)
    ensures
        m@ == precision_tick(x@, label@),
{
    let mut m: String = "<line x1=\"".to_owned();
    m.append(x);
    m.append("\" y1=\"50\" x2=\"");
    m.append(x);
    m.append("\" y2=\"500.0\" stroke=\"#f0f0f0\"/><text x=\"");
    m.append(x);
    m.append("\" y=\"520.0\" font-size=\"11\" text-anchor=\"middle\" fill=\"#555\">");
    m.append(label);
    m.append("</text>");
    m
}

/// The line through the points of a series.
pub open spec fn polyline(points: Seq<char>, stroke: Seq<char>) -> Seq<char> {
    "<polyline points=\""@
        + points
        + "\" fill=\"none\" stroke=\""@
        + stroke
        + "\" stroke-width=\"2\" opacity=\"0.9\"/>"@
}

/// The line through the points of a series.
fn new_polyline(points: &str, stroke: &str) -> (m: String)
    ensures
        m@ == polyline(points@, stroke@),
{
    let mut m: String = "<polyline points=\"".to_owned();
    m.append(points);
    m.append("\" fill=\"none\" stroke=\"");
    m.append(stroke);
    m.append("\" stroke-width=\"2\" opacity=\"0.9\"/>");
    m
}

/// A point of a series.
pub open spec fn circle(x: Seq<char>, y: Seq<char>, fill: Seq<char>) -> Seq<char> {
    "<circle cx=\""@
        + x
        + "\" cy=\""@
        + y
        + "\" r=\"3.5\" fill=\""@
        + fill
        + "\"/>"@
}

/// A point of a series.
fn new_circle(x: &str, y: &str, fill: &str) -> (m: String)
    ensures
        m@ == circle(x@, y@, fill@),
{
    let mut m: String = "<circle cx=\"".to_owned();
    m.append(x);
    m.append("\" cy=\"");
    m.append(y);
    m.append("\" r=\"3.5\" fill=\"");
    m.append(fill);
    m.append("\"/>");
    m
}

/// The entry of a series in the legend.
pub open spec fn legend(y: nat, stroke: Seq<char>, text_y: nat, label: Seq<char>) -> Seq<char> {
    "<line x1=\"714\" y1=\""@
        + text::decimal(y)
        + "\" x2=\"736\" y2=\""@
        + text::decimal(y)
        + "\" stroke=\""@
        + stroke
        + "\" stroke-width=\"3\"/><text x=\"744\" y=\""@
        + text::decimal(text_y)
        + ".0\" font-size=\"12\">"@
        + label
        + "</text>"@
}

/// The entry of a series in the legend.
fn new_legend(y: u64, stroke: &str, text_y: u64, label: &str) -> (m: String)
    ensures
        m@ == legend(y as nat, stroke@, text_y as nat, label@),
{
    let mut m: String = "<line x1=\"714\" y1=\"".to_owned();
    m.append(decimal_text(y).as_str());
    m.append("\" x2=\"736\" y2=\"");
    m.append(decimal_text(y).as_str());
    m.append("\" stroke=\"");
    m.append(stroke);
    m.append("\" stroke-width=\"3\"/><text x=\"744\" y=\"");
    m.append(decimal_text(text_y).as_str());
    m.append(".0\" font-size=\"12\">");
    m.append(label);
    m.append("</text>");
    m
}

/// The beginning of a drawing, up to its title.
pub open spec fn drawing_head() -> Seq<char> {
    "<svg xmlns=\"http://www.w3.org/2000/svg\" width=\"900\" height=\"560\" viewBox=\"0 0 900 560\" font-family=\"sans-serif\"><rect width=\"100%\" height=\"100%\" fill=\"white\"/><text x=\"380\" y=\"28\" font-size=\"18\" font-weight=\"bold\" text-anchor=\"middle\">"@
}

/// The axes of a chart with their labels.
pub open spec fn drawing_axes() -> Seq<char> {
    "<line x1=\"70\" y1=\"500\" x2=\"690\" y2=\"500\" stroke=\"#333\"/><line x1=\"70\" y1=\"50\" x2=\"70\" y2=\"500\" stroke=\"#333\"/><text x=\"380\" y=\"542\" font-size=\"13\" text-anchor=\"middle\">Precision@returned (hits / results returned)</text><text x=\"18\" y=\"275\" font-size=\"13\" text-anchor=\"middle\" transform=\"rotate(-90 18 275)\">Queries / sec</text>"@
}

/// The first `n` lines across the chart.
pub open spec fn rate_lines(ticks: Seq<RateTick>, n: int) -> Seq<char>
    decreases n,
{
    if n <= 0 {
        Seq::empty()
    } else {
        rate_lines(ticks, n - 1) + rate_tick(
            ticks[n - 1].y@,
            ticks[n - 1].label_y@,
            ticks[n - 1].label@,
        )
    }
}

/// The first `n` lines up the chart.
pub open spec fn precision_lines(ticks: Seq<PrecisionTick>, n: int) -> Seq<char>
    decreases n,
{
    if n <= 0 {
        Seq::empty()
    } else {
        precision_lines(ticks, n - 1) + precision_tick(ticks[n - 1].x@, ticks[n - 1].label@)
    }
}

/// The places of points, as a line lists them.
pub open spec fn listed_places(points: Seq<(String, String)>) -> Seq<Seq<char>> {
    Seq::new(points.len(), |i: int| points[i].0@ + ","@ + points[i].1@)
}

/// The first `n` points of a series.
pub open spec fn circles(points: Seq<(String, String)>, fill: Seq<char>, n: int) -> Seq<char>
    decreases n,
{
    if n <= 0 {
        Seq::empty()
    } else {
        circles(points, fill, n - 1) + circle(points[n - 1].0@, points[n - 1].1@, fill)
    }
}

/// A series: its line, its points, and its entry in the legend.
pub open spec fn drawn_series(s: DrawnSeries, i: int) -> Seq<char> {
    polyline(text::joined(listed_places(s.points@), " "@), color(i)) + circles(
        s.points@,
        color(i),
        s.points@.len() as int,
    ) + legend((56 + 20 * i) as nat, color(i), (60 + 20 * i) as nat, escaped(s.label@))
}

/// The first `n` series.
pub open spec fn all_series(series: Seq<DrawnSeries>, n: int) -> Seq<char>
    decreases n,
{
    if n <= 0 {
        Seq::empty()
    } else {
        all_series(series, n - 1) + drawn_series(series[n - 1], n - 1)
    }
}

/// A chart.
pub open spec fn drawing(
    title: Seq<char>,
    rates: Seq<RateTick>,
    precisions: Seq<PrecisionTick>,
    series: Seq<DrawnSeries>,
) -> Seq<char> {
    drawing_head() + escaped(title) + "</text>"@ + rate_lines(rates, rates.len() as int)
        + precision_lines(precisions, precisions.len() as int) + drawing_axes() + all_series(
        series,
        series.len() as int,
    ) + "</svg>\n"@
}

/// One series of a chart.
fn draw_series(s: &DrawnSeries, i: usize) -> (r: String)
    requires
        i < 0x0100_0000_0000_0000,
    ensures
        r@ == drawn_series(*s, i as int),
{
    let stroke: &str = palette(i);
    let mut places: Vec<String> = Vec::new();
    let mut k: usize = 0;
    while k < s.points.len()
        invariant
            k <= s.points@.len(),
            places@.len() == k,
            forall|j: int|
                0 <= j < k ==> (#[trigger] places@[j])@ == listed_places(s.points@)[j],
        decreases s.points@.len() - k,
    {
        let mut place: String = s.points[k].0.clone();
        place.append(",");
        place.append(s.points[k].1.as_str());
        places.push(place);
        k += 1;
    }
    assert(text::texts_view(places@) =~= listed_places(s.points@));
    let line: String = join_texts(places.as_slice(), " ");
    let mut r: String = new_polyline(line.as_str(), stroke);
    let ghost first = r@;
    let mut m: usize = 0;
    assert(first + Seq::<char>::empty() =~= first);
    while m < s.points.len()
        invariant
            m <= s.points@.len(),
            r@ == first + circles(s.points@, stroke@, m as int),
        decreases s.points@.len() - m,
    {
        let c: String = new_circle(s.points[m].0.as_str(), s.points[m].1.as_str(), stroke);
        let ghost sofar = circles(s.points@, stroke@, m as int);
        r.append(c.as_str());
        assert(first + sofar + c@ =~= first + (sofar + c@));
        m += 1;
    }
    let base: u64 = 20 * (i as u64);
    let entry: String = new_legend(
        56 + base,
        stroke,
        60 + base,
        xml_escape(s.label.as_str()).as_str(),
    );
    r.append(entry.as_str());
    r
}

/// Draws a chart. The places and the labels of its lines and points are given as texts.
pub fn render_svg(
    title: &str,
    rates: &[RateTick],
    precisions: &[PrecisionTick],
    series: &[DrawnSeries],
) -> (r: String)
    requires
        series@.len() < 0x0100_0000_0000_0000,
    ensures
        r@ == drawing(title@, rates@, precisions@, series@),
{
    let mut r: String = "<svg xmlns=\"http://www.w3.org/2000/svg\" width=\"900\" height=\"560\" viewBox=\"0 0 900 560\" font-family=\"sans-serif\"><rect width=\"100%\" height=\"100%\" fill=\"white\"/><text x=\"380\" y=\"28\" font-size=\"18\" font-weight=\"bold\" text-anchor=\"middle\">".to_owned();
    r.append(xml_escape(title).as_str());
    r.append("</text>");
    let ghost head = r@;
    let mut i: usize = 0;
    assert(head + Seq::<char>::empty() =~= head);
    while i < rates.len()
        invariant
            i <= rates@.len(),
            r@ == head + rate_lines(rates@, i as int),
        decreases rates@.len() - i,
    {
        let t: &RateTick = &rates[i];
        let line: String = new_rate_tick(t.y.as_str(), t.label_y.as_str(), t.label.as_str());
        let ghost sofar = rate_lines(rates@, i as int);
        r.append(line.as_str());
        assert(head + sofar + line@ =~= head + (sofar + line@));
        i += 1;
    }
    let ghost with_rates = r@;
    let mut j: usize = 0;
    assert(with_rates + Seq::<char>::empty() =~= with_rates);
    while j < precisions.len()
        invariant
            j <= precisions@.len(),
            r@ == with_rates + precision_lines(precisions@, j as int),
        decreases precisions@.len() - j,
    {
        let t: &PrecisionTick = &precisions[j];
        let line: String = new_precision_tick(t.x.as_str(), t.label.as_str());
        let ghost sofar = precision_lines(precisions@, j as int);
        r.append(line.as_str());
        assert(with_rates + sofar + line@ =~= with_rates + (sofar + line@));
        j += 1;
    }
    r.append(
        "<line x1=\"70\" y1=\"500\" x2=\"690\" y2=\"500\" stroke=\"#333\"/><line x1=\"70\" y1=\"50\" x2=\"70\" y2=\"500\" stroke=\"#333\"/><text x=\"380\" y=\"542\" font-size=\"13\" text-anchor=\"middle\">Precision@returned (hits / results returned)</text><text x=\"18\" y=\"275\" font-size=\"13\" text-anchor=\"middle\" transform=\"rotate(-90 18 275)\">Queries / sec</text>",
    );
    let ghost framed = r@;
    let mut k: usize = 0;
    assert(framed + Seq::<char>::empty() =~= framed);
    while k < series.len()
        invariant
            k <= series@.len(),
            series@.len() < 0x0100_0000_0000_0000,
            r@ == framed + all_series(series@, k as int),
        decreases series@.len() - k,
    {
        let drawn: String = draw_series(&series[k], k);
        let ghost sofar = all_series(series@, k as int);
        r.append(drawn.as_str());
        assert(framed + sofar + drawn@ =~= framed + (sofar + drawn@));
        k += 1;
    }
    r.append("</svg>\n");
    r
}

} // verus!
