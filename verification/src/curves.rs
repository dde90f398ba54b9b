//! What the curves over the number of clients show of the searches, and which searches tables and warnings
//! pick.
use vstd::prelude::*;

use crate::float_bits;
use crate::json::JsonView;
use crate::sorted_texts;
use crate::summary::{self, SearchEntry};
use crate::text;

verus! {

/// Whether a search measured a precision at a breadth.
pub open spec fn measured_at(e: SearchEntry, ef: Seq<char>) -> bool {
    e.ef@ == ef && !float_bits::less64(e.results.mean_precision_bits, 0)
}

/// A number that is put keeps a list ascending, and adds nothing but itself.
proof fn lemma_put_level(list: Seq<i64>, x: i64)
    requires
        forall|i: int, j: int| 0 <= i < j < list.len() ==> list[i] < list[j],
    ensures
        forall|i: int, j: int|
            0 <= i < j < summary::with_level(list, x).len() ==> summary::with_level(list, x)[i]
                < summary::with_level(list, x)[j],
        forall|y: i64| #[trigger]
            summary::with_level(list, x).contains(y) <==> list.contains(y) || y == x,
    decreases list.len(),
{
    let result = summary::with_level(list, x);
    if list.len() == 0 {
        assert(result[0] == x);
    } else if x < list.last() {
        let front = list.drop_last();
        let last = list.last();
        lemma_put_level(front, x);
        let earlier = summary::with_level(front, x);
        assert forall|i: int, j: int| 0 <= i < j < result.len() implies result[i] < result[j] by {
            if j < earlier.len() {
                assert(earlier[i] < earlier[j]);
            } else {
                assert(earlier.contains(earlier[i]));
                if earlier[i] != x {
                    let k = choose|k: int| 0 <= k < front.len() && front[k] == earlier[i];
                    assert(list[k] < list[list.len() - 1]);
                }
            }
        }
        assert forall|y: i64| #[trigger] result.contains(y) <==> list.contains(y) || y == x by {
            assert(earlier.contains(y) <==> front.contains(y) || y == x);
            if result.contains(y) {
                let i = choose|i: int| 0 <= i < result.len() && result[i] == y;
                if i < earlier.len() {
                    assert(earlier[i] == y);
                    if y != x {
                        let k = choose|k: int| 0 <= k < front.len() && front[k] == y;
                        assert(list[k] == y);
                    }
                } else {
                    assert(list[list.len() - 1] == y);
                }
            }
            if list.contains(y) {
                let k = choose|k: int| 0 <= k < list.len() && list[k] == y;
                if k < front.len() {
                    assert(front[k] == y);
                } else {
                    assert(result[earlier.len() as int] == y);
                }
            }
            if earlier.contains(y) {
                let i = choose|i: int| 0 <= i < earlier.len() && earlier[i] == y;
                assert(result[i] == y);
            }
        }
    } else if list.last() == x {
        assert(list[list.len() - 1] == x);
    } else {
        assert forall|y: i64| #[trigger] result.contains(y) <==> list.contains(y) || y == x by {
            if result.contains(y) {
                let i = choose|i: int| 0 <= i < result.len() && result[i] == y;
                if i < list.len() {
                    assert(list[i] == y);
                }
            }
            if list.contains(y) {
                let k = choose|k: int| 0 <= k < list.len() && list[k] == y;
                assert(result[k] == y);
            }
            assert(result[list.len() as int] == x);
        }
    }
}

/// The numbers of clients of a curve ascend and are those of its searches.
proof fn lemma_levels(entries: Seq<SearchEntry>, ef: Seq<char>, n: int)
    requires
        0 <= n <= entries.len(),
    ensures
        forall|i: int, j: int|
            0 <= i < j < summary::curve_levels(entries, ef, n).len() ==> summary::curve_levels(
                entries,
                ef,
                n,
            )[i] < summary::curve_levels(entries, ef, n)[j],
        forall|level: i64| #[trigger]
            summary::curve_levels(entries, ef, n).contains(level) <==> exists|i: int|
                0 <= i < n && measured_at(#[trigger] entries[i], ef) && entries[i].parallel == level,
    decreases n,
{
    if n > 0 {
        lemma_levels(entries, ef, n - 1);
        let before = summary::curve_levels(entries, ef, n - 1);
        let all = summary::curve_levels(entries, ef, n);
        lemma_put_level(before, entries[n - 1].parallel);
        assert forall|level: i64| #[trigger] all.contains(level) <==> exists|i: int|
            0 <= i < n && measured_at(#[trigger] entries[i], ef) && entries[i].parallel == level by {
            assert(before.contains(level) <==> exists|i: int|
                0 <= i < n - 1 && measured_at(#[trigger] entries[i], ef) && entries[i].parallel
                    == level);
            if exists|i: int|
                0 <= i < n && measured_at(#[trigger] entries[i], ef) && entries[i].parallel == level {
                let i = choose|i: int|
                    0 <= i < n && measured_at(#[trigger] entries[i], ef) && entries[i].parallel
                        == level;
                if i < n - 1 {
                    assert(before.contains(level));
                }
            }
            if measured_at(entries[n - 1], ef) && entries[n - 1].parallel == level {
                assert(all.contains(level));
            }
        }
    }
}

/// The points of a curve are the best searches at its numbers of clients.
proof fn lemma_points(entries: Seq<SearchEntry>, ef: Seq<char>, m: int)
    requires
        0 <= m <= summary::curve_levels(entries, ef, entries.len() as int).len(),
    ensures
        ({
            let levels = summary::curve_levels(entries, ef, entries.len() as int);
            let points = summary::curve_points(entries, ef, levels, m);
            &&& points.len() == m
            &&& forall|k: int|
                0 <= k < m ==> 0 <= #[trigger] points[k] < entries.len() && measured_at(
                    entries[points[k]],
                    ef,
                ) && entries[points[k]].parallel == levels[k] && summary::best_marked(
                    entries,
                    summary::level_marks(entries, ef, levels[k]),
                    entries.len() as int,
                ) == Some(points[k])
        }),
    decreases m,
{
    if m > 0 {
        let n = entries.len() as int;
        let levels = summary::curve_levels(entries, ef, n);
        lemma_points(entries, ef, m - 1);
        lemma_levels(entries, ef, n);
        let level = levels[m - 1];
        let marks = summary::level_marks(entries, ef, level);
        assert(levels.contains(level));
        let i = choose|i: int|
            0 <= i < n && measured_at(#[trigger] entries[i], ef) && entries[i].parallel == level;
        assert(marks[i]);
        summary::a_best_search_is_one_of_those(entries, marks, n);
    }
}

/// A curve has a point at every number of clients at which a search measured a precision at its breadth.
pub proof fn every_number_of_clients_is_on_the_curve(
    entries: Seq<SearchEntry>,
    ef: Seq<char>,
    i: int,
) -> (m: int)
    requires
        0 <= i < entries.len(),
        measured_at(entries[i], ef),
    ensures
        0 <= m < summary::curve_of(entries, ef).points.len(),
        entries[summary::curve_of(entries, ef).points[m]].parallel == entries[i].parallel,
{
    let n = entries.len() as int;
    let levels = summary::curve_levels(entries, ef, n);
    lemma_levels(entries, ef, n);
    lemma_points(entries, ef, levels.len() as int);
    assert(levels.contains(entries[i].parallel));
    choose|m: int| 0 <= m < levels.len() && levels[m] == entries[i].parallel
}

/// The points of a curve are searches that measured a precision at its breadth, by ascending number of
/// clients and one for each.
pub proof fn points_of_a_curve_ascend(entries: Seq<SearchEntry>, ef: Seq<char>, m: int, l: int)
    requires
        0 <= m < summary::curve_of(entries, ef).points.len(),
        0 <= l < summary::curve_of(entries, ef).points.len(),
    ensures
        ({
            let points = summary::curve_of(entries, ef).points;
            &&& 0 <= points[m] < entries.len()
            &&& measured_at(entries[points[m]], ef)
            &&& m < l <==> entries[points[m]].parallel < entries[points[l]].parallel
        }),
{
    let n = entries.len() as int;
    let levels = summary::curve_levels(entries, ef, n);
    lemma_levels(entries, ef, n);
    lemma_points(entries, ef, levels.len() as int);
    let points = summary::curve_of(entries, ef).points;
    assert(entries[points[m]].parallel == levels[m]);
    assert(entries[points[l]].parallel == levels[l]);
}

/// The point of a curve at a number of clients was not held back by the client where another search there
/// was not, and of those held back alike it has the highest rate.
pub proof fn points_of_a_curve_are_the_best(entries: Seq<SearchEntry>, ef: Seq<char>, i: int, m: int)
    requires
        0 <= i < entries.len(),
        measured_at(entries[i], ef),
        0 <= m < summary::curve_of(entries, ef).points.len(),
        entries[summary::curve_of(entries, ef).points[m]].parallel == entries[i].parallel,
    ensures
        ({
            let best = entries[summary::curve_of(entries, ef).points[m]].results;
            let other = entries[i].results;
            &&& !other.client_saturated ==> !best.client_saturated
            &&& other.client_saturated == best.client_saturated && !float_bits::is_nan64(
                other.rps_bits,
            ) && !float_bits::is_nan64(best.rps_bits) ==> !float_bits::less64(
                best.rps_bits,
                other.rps_bits,
            )
        }),
{
    let n = entries.len() as int;
    let levels = summary::curve_levels(entries, ef, n);
    lemma_points(entries, ef, levels.len() as int);
    let b = summary::curve_of(entries, ef).points[m];
    let marks = summary::level_marks(entries, ef, levels[m]);
    assert(entries[b].parallel == levels[m]);
    assert(marks[i]);
    if !entries[i].results.client_saturated {
        summary::the_best_is_not_held_back(entries, marks, n, i, b);
    }
    if entries[i].results.client_saturated == entries[b].results.client_saturated
        && !float_bits::is_nan64(entries[i].results.rps_bits) && !float_bits::is_nan64(
        entries[b].results.rps_bits,
    ) {
        summary::the_best_has_the_highest_rate(entries, marks, n, i, b);
    }
}

/// The highest rate among the first points.
proof fn lemma_peak(entries: Seq<SearchEntry>, points: Seq<int>, n: int)
    requires
        0 <= n <= points.len(),
    ensures
        match summary::peak(entries, points, n) {
            Some(b) => {
                &&& float_bits::less64(0xfff0_0000_0000_0000, entries[b].results.rps_bits)
                &&& exists|m: int|
                    0 <= m < n && #[trigger] points[m] == b && (forall|k: int|
                        0 <= k < m ==> !float_bits::less64(
                            entries[b].results.rps_bits,
                            entries[#[trigger] points[k]].results.rps_bits,
                        ))
                &&& forall|k: int|
                    0 <= k < n ==> !float_bits::less64(
                        entries[b].results.rps_bits,
                        entries[#[trigger] points[k]].results.rps_bits,
                    )
            },
            None => forall|k: int|
                0 <= k < n ==> !float_bits::less64(
                    0xfff0_0000_0000_0000,
                    entries[#[trigger] points[k]].results.rps_bits,
                ),
        },
    decreases n,
{
    if n > 0 {
        lemma_peak(entries, points, n - 1);
        assert(points[n - 1] == points[n - 1]);
        match summary::peak(entries, points, n - 1) {
            Some(b) => {
                let m = choose|m: int| 0 <= m < n - 1 && #[trigger] points[m] == b;
                assert(points[m] == b);
                if float_bits::less64(
                    entries[b].results.rps_bits,
                    entries[points[n - 1]].results.rps_bits,
                ) {
                    let c = points[n - 1];
                    assert forall|k: int| 0 <= k < n implies !float_bits::less64(
                        entries[c].results.rps_bits,
                        entries[#[trigger] points[k]].results.rps_bits,
                    ) by {
                        if k < n - 1 {
                            assert(!float_bits::less64(
                                entries[b].results.rps_bits,
                                entries[points[k]].results.rps_bits,
                            ));
                        }
                    }
                }
            },
            None => {
                let c = points[n - 1];
                if summary::peak(entries, points, n) is Some {
                    assert forall|k: int| 0 <= k < n implies !float_bits::less64(
                        entries[c].results.rps_bits,
                        entries[#[trigger] points[k]].results.rps_bits,
                    ) by {
                        if k < n - 1 {
                            assert(!float_bits::less64(
                                0xfff0_0000_0000_0000,
                                entries[points[k]].results.rps_bits,
                            ));
                        }
                    }
                }
            },
        }
    }
}

/// The peak of a curve is one of its points, and no point has a higher rate. The curve is at its most at the
/// number of clients of the peak, and that number is its knee exactly where more clients were tried.
pub proof fn the_peak_is_the_highest_rate(entries: Seq<SearchEntry>, ef: Seq<char>, m: int)
    requires
        0 <= m < summary::curve_of(entries, ef).points.len(),
    ensures
        ({
            let c = summary::curve_of(entries, ef);
            &&& c.ef == ef
            &&& c.peak matches Some(b) ==> {
                &&& c.points.contains(b)
                &&& c.max_qps_parallel == entries[b].parallel
                &&& !float_bits::less64(
                    entries[b].results.rps_bits,
                    entries[c.points[m]].results.rps_bits,
                )
            }
            &&& c.peak is None ==> !float_bits::is_finite64(entries[c.points[m]].results.rps_bits)
            &&& c.knee_parallel is Some <==> c.max_qps_parallel < entries[c.points.last()].parallel
            &&& c.knee_parallel matches Some(k) ==> k == c.max_qps_parallel
        }),
{
    let c = summary::curve_of(entries, ef);
    lemma_peak(entries, c.points, c.points.len() as int);
    assert(c.points[m] == c.points[m]);
}

/// The breadths at which a precision was measured, ascending.
proof fn lemma_curve_efs(entries: Seq<SearchEntry>, n: int)
    requires
        0 <= n <= entries.len(),
    ensures
        sorted_texts::ascending(summary::curve_efs(entries, n)),
        forall|ef: Seq<char>| #[trigger]
            summary::curve_efs(entries, n).contains(ef) <==> exists|i: int|
                0 <= i < n && measured_at(#[trigger] entries[i], ef),
    decreases n,
{
    if n > 0 {
        lemma_curve_efs(entries, n - 1);
        let before = summary::curve_efs(entries, n - 1);
        let all = summary::curve_efs(entries, n);
        sorted_texts::texts_are_put_in_order(before, entries[n - 1].ef@);
        assert forall|ef: Seq<char>| #[trigger] all.contains(ef) <==> exists|i: int|
            0 <= i < n && measured_at(#[trigger] entries[i], ef) by {
            assert(before.contains(ef) <==> exists|i: int|
                0 <= i < n - 1 && measured_at(#[trigger] entries[i], ef));
            if exists|i: int| 0 <= i < n && measured_at(#[trigger] entries[i], ef) {
                let i = choose|i: int| 0 <= i < n && measured_at(#[trigger] entries[i], ef);
                if i < n - 1 {
                    assert(before.contains(ef));
                }
            }
            if measured_at(entries[n - 1], ef) {
                assert(all.contains(ef));
            }
        }
    }
}

/// The breadths at which several numbers of clients were tried keep their order.
proof fn lemma_swept(entries: Seq<SearchEntry>, efs: Seq<Seq<char>>, m: int)
    requires
        0 <= m <= efs.len(),
        sorted_texts::ascending(efs),
    ensures
        sorted_texts::ascending(summary::swept_efs(entries, efs, m)),
        forall|ef: Seq<char>| #[trigger]
            summary::swept_efs(entries, efs, m).contains(ef) <==> (exists|k: int|
                0 <= k < m && #[trigger] efs[k] == ef) && summary::curve_levels(
                entries,
                ef,
                entries.len() as int,
            ).len() >= 2,
    decreases m,
{
    if m > 0 {
        lemma_swept(entries, efs, m - 1);
        let before = summary::swept_efs(entries, efs, m - 1);
        let all = summary::swept_efs(entries, efs, m);
        assert forall|ef: Seq<char>| #[trigger] all.contains(ef) <==> (exists|k: int|
            0 <= k < m && #[trigger] efs[k] == ef) && summary::curve_levels(
            entries,
            ef,
            entries.len() as int,
        ).len() >= 2 by {
            assert(before.contains(ef) <==> (exists|k: int|
                0 <= k < m - 1 && #[trigger] efs[k] == ef) && summary::curve_levels(
                entries,
                ef,
                entries.len() as int,
            ).len() >= 2);
            if all.contains(ef) {
                let j = choose|j: int| 0 <= j < all.len() && all[j] == ef;
                if j < before.len() {
                    assert(before[j] == ef);
                    assert(before.contains(ef));
                } else {
                    assert(efs[m - 1] == ef);
                }
            }
            if before.contains(ef) {
                let j = choose|j: int| 0 <= j < before.len() && before[j] == ef;
                assert(all[j] == ef);
            }
            if efs[m - 1] == ef && all.len() > before.len() {
                assert(all[before.len() as int] == ef);
            }
        }
        assert forall|i: int, j: int| 0 <= i < j < all.len() implies text::text_less(
            #[trigger] all[i],
            #[trigger] all[j],
        ) by {
            if j < before.len() {
                assert(all[i] == before[i] && all[j] == before[j]);
            } else {
                assert(before.contains(before[i]));
                let k = choose|k: int| 0 <= k < m - 1 && #[trigger] efs[k] == before[i];
                assert(text::text_less(efs[k], efs[m - 1]));
            }
        }
    }
}

/// A breadth has a curve exactly where precisions were measured at it with different numbers of clients,
/// and the curves stand by ascending text of their breadth.
pub proof fn every_breadth_with_several_numbers_of_clients_has_a_curve(
    entries: Seq<SearchEntry>,
    ef: Seq<char>,
)
    ensures
        (exists|k: int| 0 <= k < summary::all_curves(entries).len() && #[trigger] summary::all_curves(
            entries,
        )[k] == summary::curve_of(entries, ef)) <==> exists|i: int, j: int|
            0 <= i < entries.len() && 0 <= j < entries.len() && measured_at(#[trigger] entries[i], ef)
                && measured_at(#[trigger] entries[j], ef) && entries[i].parallel
                != entries[j].parallel,
        forall|k: int, l: int|
            0 <= k < l < summary::all_curves(entries).len() ==> text::text_less(
                (#[trigger] summary::all_curves(entries)[k]).ef,
                (#[trigger] summary::all_curves(entries)[l]).ef,
            ),
{
    let n = entries.len() as int;
    let efs = summary::curve_efs(entries, n);
    let swept = summary::swept_efs(entries, efs, efs.len() as int);
    let curves = summary::all_curves(entries);
    let levels = summary::curve_levels(entries, ef, n);
    lemma_curve_efs(entries, n);
    lemma_swept(entries, efs, efs.len() as int);
    lemma_levels(entries, ef, n);
    if exists|k: int| 0 <= k < curves.len() && #[trigger] curves[k] == summary::curve_of(entries, ef) {
        let k = choose|k: int|
            0 <= k < curves.len() && #[trigger] curves[k] == summary::curve_of(entries, ef);
        assert(curves[k].ef == swept[k]);
        assert(swept.contains(ef));
        assert(levels.contains(levels[0]) && levels.contains(levels[1]));
        let i = choose|i: int|
            0 <= i < n && measured_at(#[trigger] entries[i], ef) && entries[i].parallel == levels[0];
        let j = choose|j: int|
            0 <= j < n && measured_at(#[trigger] entries[j], ef) && entries[j].parallel == levels[1];
        assert(entries[i].parallel != entries[j].parallel);
    }
    if exists|i: int, j: int|
        0 <= i < entries.len() && 0 <= j < entries.len() && measured_at(#[trigger] entries[i], ef)
            && measured_at(#[trigger] entries[j], ef) && entries[i].parallel != entries[j].parallel {
        let (i, j) = choose|i: int, j: int|
            0 <= i < entries.len() && 0 <= j < entries.len() && measured_at(
                #[trigger] entries[i],
                ef,
            ) && measured_at(#[trigger] entries[j], ef) && entries[i].parallel
                != entries[j].parallel;
        assert(levels.contains(entries[i].parallel));
        assert(levels.contains(entries[j].parallel));
        assert(levels.len() >= 2);
        assert(efs.contains(ef));
        let x = choose|x: int| 0 <= x < efs.len() && efs[x] == ef;
        assert(efs[x] == ef);
        assert(swept.contains(ef));
        let k = choose|k: int| 0 <= k < swept.len() && swept[k] == ef;
        assert(curves[k] == summary::curve_of(entries, ef));
    }
    assert forall|k: int, l: int| 0 <= k < l < curves.len() implies text::text_less(
        (#[trigger] curves[k]).ef,
        (#[trigger] curves[l]).ef,
    ) by {
        assert(text::text_less(swept[k], swept[l]));
    }
}

/// The fastest search with a label has that label, and no search with it has a higher rate.
pub proof fn the_fastest_has_the_highest_rate(
    entries: Seq<SearchEntry>,
    label: Seq<char>,
    n: int,
    i: int,
)
    requires
        0 <= i < n <= entries.len(),
        summary::ratio_label(entries[i]) == label,
        forall|j: int|
            0 <= j < n && summary::ratio_label(#[trigger] entries[j]) == label
                ==> !float_bits::is_nan64(entries[j].results.rps_bits),
    ensures
        summary::fastest_of(entries, label, n) matches Some(b) && 0 <= b < n && summary::ratio_label(
            entries[b],
        ) == label && !float_bits::less64(entries[b].results.rps_bits, entries[i].results.rps_bits),
    decreases n,
{
    let before = summary::fastest_of(entries, label, n - 1);
    if i < n - 1 {
        the_fastest_has_the_highest_rate(entries, label, n - 1, i);
    } else if before is Some {
        lemma_fastest_is_labelled(entries, label, n - 1);
    }
}

/// The fastest search with a label has it.
proof fn lemma_fastest_is_labelled(entries: Seq<SearchEntry>, label: Seq<char>, n: int)
    requires
        0 <= n <= entries.len(),
    ensures
        summary::fastest_of(entries, label, n) matches Some(b) ==> 0 <= b < n
            && summary::ratio_label(entries[b]) == label,
    decreases n,
{
    if n > 0 {
        lemma_fastest_is_labelled(entries, label, n - 1);
    }
}

/// A place that is put stands behind those whose key is not larger.
proof fn lemma_put_key(keys: Seq<u64>, list: Seq<int>, x: int)
    requires
        !float_bits::is_nan64(keys[x]),
        forall|i: int| 0 <= i < list.len() ==> !float_bits::is_nan64(keys[#[trigger] list[i]]),
        forall|i: int, j: int|
            0 <= i < j < list.len() ==> !float_bits::less64(
                keys[#[trigger] list[j]],
                keys[#[trigger] list[i]],
            ),
    ensures
        summary::put_by_key(keys, list, x).to_multiset() == list.to_multiset().insert(x),
        forall|i: int|
            0 <= i < summary::put_by_key(keys, list, x).len() ==> (
            #[trigger] summary::put_by_key(keys, list, x)[i]) == x || list.contains(
                summary::put_by_key(keys, list, x)[i],
            ),
        forall|i: int, j: int|
            0 <= i < j < summary::put_by_key(keys, list, x).len() ==> !float_bits::less64(
                keys[#[trigger] summary::put_by_key(keys, list, x)[j]],
                keys[#[trigger] summary::put_by_key(keys, list, x)[i]],
            ),
    decreases list.len(),
{
    broadcast use vstd::seq_lib::group_to_multiset_ensures;

    let result = summary::put_by_key(keys, list, x);
    if list.len() == 0 {
        assert(result =~= list.push(x));
    } else if float_bits::less64(keys[x], keys[list.last()]) {
        let front = list.drop_last();
        let last = list.last();
        assert forall|i: int| 0 <= i < front.len() implies !float_bits::is_nan64(
            keys[#[trigger] front[i]],
        ) by {
            assert(list[i] == front[i]);
        }
        assert forall|i: int, j: int| 0 <= i < j < front.len() implies !float_bits::less64(
            keys[#[trigger] front[j]],
            keys[#[trigger] front[i]],
        ) by {
            assert(list[i] == front[i] && list[j] == front[j]);
        }
        lemma_put_key(keys, front, x);
        let earlier = summary::put_by_key(keys, front, x);
        assert(list =~= front.push(last));
        assert(result.to_multiset() =~= list.to_multiset().insert(x));
        assert forall|i: int| 0 <= i < result.len() implies (#[trigger] result[i]) == x
            || list.contains(result[i]) by {
            if i < earlier.len() {
                assert(result[i] == earlier[i]);
                if earlier[i] != x {
                    let k = choose|k: int| 0 <= k < front.len() && front[k] == earlier[i];
                    assert(list[k] == result[i]);
                }
            } else {
                assert(list[list.len() - 1] == result[i]);
            }
        }
        assert forall|i: int, j: int| 0 <= i < j < result.len() implies !float_bits::less64(
            keys[#[trigger] result[j]],
            keys[#[trigger] result[i]],
        ) by {
            if j < earlier.len() {
                assert(result[i] == earlier[i] && result[j] == earlier[j]);
            } else {
                assert(result[i] == earlier[i]);
                if earlier[i] != x {
                    let k = choose|k: int| 0 <= k < front.len() && front[k] == earlier[i];
                    assert(list[k] == earlier[i]);
                    assert(list[list.len() - 1] == last);
                }
            }
        }
    } else {
        assert forall|i: int| 0 <= i < result.len() implies (#[trigger] result[i]) == x
            || list.contains(result[i]) by {
            if i < list.len() {
                assert(list[i] == result[i]);
            }
        }
        assert forall|i: int, j: int| 0 <= i < j < result.len() implies !float_bits::less64(
            keys[#[trigger] result[j]],
            keys[#[trigger] result[i]],
        ) by {
            if j < list.len() {
                assert(list[i] == result[i] && list[j] == result[j]);
            } else {
                assert(list[i] == result[i]);
                let last = list[list.len() - 1];
                assert(!float_bits::is_nan64(keys[last]));
                if i < list.len() - 1 {
                    assert(!float_bits::less64(keys[last], keys[list[i]]));
                }
            }
        }
    }
}

/// Places put in the order of their keys are the same places, each once, by ascending key.
pub proof fn places_are_put_in_the_order_of_their_keys(keys: Seq<u64>, n: int)
    requires
        0 <= n <= keys.len(),
        forall|i: int| 0 <= i < keys.len() ==> !float_bits::is_nan64(#[trigger] keys[i]),
    ensures
        summary::by_key(keys, n).to_multiset() == Seq::new(n as nat, |i: int| i).to_multiset(),
        forall|i: int|
            0 <= i < summary::by_key(keys, n).len() ==> 0 <= #[trigger] summary::by_key(keys, n)[i]
                < n,
        forall|i: int, j: int|
            0 <= i < j < summary::by_key(keys, n).len() ==> !float_bits::less64(
                keys[#[trigger] summary::by_key(keys, n)[j]],
                keys[#[trigger] summary::by_key(keys, n)[i]],
            ),
    decreases n,
{
    broadcast use vstd::seq_lib::group_to_multiset_ensures;

    let all = Seq::new(n as nat, |i: int| i);
    if n > 0 {
        places_are_put_in_the_order_of_their_keys(keys, n - 1);
        let before = summary::by_key(keys, n - 1);
        lemma_put_key(keys, before, n - 1);
        assert(all =~= Seq::new((n - 1) as nat, |i: int| i).push(n - 1));
        let result = summary::by_key(keys, n);
        assert forall|i: int| 0 <= i < result.len() implies 0 <= #[trigger] result[i] < n by {
            if result[i] != n - 1 {
                let k = choose|k: int| 0 <= k < before.len() && before[k] == result[i];
                assert(0 <= before[k] < n - 1);
            }
        }
    } else {
        assert(all =~= Seq::empty());
    }
}

/// Every search whose calibration says that it did not meet its target is reported, in the order of the
/// searches, and no other: not one that met it, and not one without a calibration.
pub proof fn every_missed_target_is_reported(entries: Seq<SearchEntry>, n: int)
    requires
        0 <= n <= entries.len(),
    ensures
        forall|i: int| #[trigger]
            summary::missed_places(entries, n).contains(i) <==> 0 <= i < n && (
            entries[i].calibration matches Some(c) && c@.member("reached_target"@) == Some(
                JsonView::Bool(false),
            )),
        forall|k: int, l: int|
            0 <= k < l < summary::missed_places(entries, n).len() ==> #[trigger] summary::missed_places(
                entries,
                n,
            )[k] < #[trigger] summary::missed_places(entries, n)[l],
    decreases n,
{
    if n > 0 {
        every_missed_target_is_reported(entries, n - 1);
        let earlier = summary::missed_places(entries, n - 1);
        let now = summary::missed_places(entries, n);
        assert forall|k: int| 0 <= k < earlier.len() implies #[trigger] earlier[k] < n - 1 by {
            assert(earlier.contains(earlier[k]));
        }
        if summary::missed_its_target(entries[n - 1]) {
            assert forall|i: int| #[trigger] now.contains(i) <==> earlier.contains(i) || i == n - 1 by {
                if earlier.contains(i) {
                    let k = choose|k: int| 0 <= k < earlier.len() && earlier[k] == i;
                    assert(now[k] == i);
                }
                if i == n - 1 {
                    assert(now[earlier.len() as int] == i);
                }
                if now.contains(i) && i != n - 1 {
                    let k = choose|k: int| 0 <= k < now.len() && now[k] == i;
                    assert(earlier[k] == i);
                }
            }
        }
    }
}

} // verus!
