//! The summary of the searches of an experiment: the best at each precision, the curves over the number
//! of clients, and what is warned of.
use vstd::prelude::*;

use crate::experiment::results::{self, SearchResults};
use crate::float_bits::{self, below64};
use crate::json::{self, count_value, int_value, new_members, put_member, text_value, Json, JsonView};
use crate::sorted_texts::{self, put_text};
use crate::text::{self, same_text, signed_decimal_text};

verus! {

/// One search of an experiment with its results.
pub struct SearchEntry {
    pub search_id: usize,
    pub ef: String,
    pub parallel: i64,
    pub results: SearchResults,
    /// How a parameter of it was calibrated.
    pub calibration: Option<Json>,
}

/// Whether a search is better than another of the same kind: one that the client did not hold back is
/// better than one that it did, and otherwise the one with the higher rate.
pub open spec fn replaces(new: SearchEntry, old_best: SearchEntry) -> bool {
    if new.results.client_saturated != old_best.results.client_saturated {
        !new.results.client_saturated
    } else {
        float_bits::less64(old_best.results.rps_bits, new.results.rps_bits)
    }
}

/// Whether a search is better than another of the same kind.
fn is_better(new: &SearchEntry, old_best: &SearchEntry) -> (r: bool)
    ensures
        r == replaces(*new, *old_best),
{
    if new.results.client_saturated != old_best.results.client_saturated {
        !new.results.client_saturated
    } else {
        below64(old_best.results.rps_bits, new.results.rps_bits)
    }
}

/// The best of the marked searches among the first `n`.
pub open spec fn best_marked(entries: Seq<SearchEntry>, marks: Seq<bool>, n: int) -> Option<int>
    decreases n,
{
    if n <= 0 {
        None
    } else {
        let before = best_marked(entries, marks, n - 1);
        if !marks[n - 1] {
            before
        } else {
            match before {
                None => Some(n - 1),
                Some(b) => if replaces(entries[n - 1], entries[b]) {
                    Some(n - 1)
                } else {
                    Some(b)
                },
            }
        }
    }
}

/// The best is one of the marked searches.
proof fn lemma_best_is_marked(entries: Seq<SearchEntry>, marks: Seq<bool>, n: int)
    requires
        0 <= n <= marks.len(),
    ensures
        best_marked(entries, marks, n) matches Some(b) ==> 0 <= b < n && marks[b],
        best_marked(entries, marks, n) is None ==> (forall|i: int| 0 <= i < n ==> !#[trigger] marks[i]),
    decreases n,
{
    if n > 0 {
        lemma_best_is_marked(entries, marks, n - 1);
    }
}

/// The best is one of the marked searches, and there is one where some search is marked.
pub proof fn a_best_search_is_one_of_those(entries: Seq<SearchEntry>, marks: Seq<bool>, n: int)
    requires
        0 <= n <= marks.len(),
    ensures
        best_marked(entries, marks, n) matches Some(b) ==> 0 <= b < n && marks[b],
        best_marked(entries, marks, n) is Some <==> exists|i: int| 0 <= i < n && #[trigger] marks[i],
{
    lemma_best_is_marked(entries, marks, n);
}

/// The best of the marked searches.
fn find_best(entries: &[SearchEntry], marks: &Vec<bool>) -> (r: Option<usize>)
    requires
        marks@.len() == entries@.len(),
    ensures
        r is Some == best_marked(entries@, marks@, entries@.len() as int) is Some,
        r matches Some(b) ==> best_marked(entries@, marks@, entries@.len() as int) == Some(b as int)
            && b < entries@.len(),
{
    let mut best: Option<usize> = None;
    let mut i: usize = 0;
    while i < entries.len()
        invariant
            i <= entries@.len(),
            marks@.len() == entries@.len(),
            best is Some == best_marked(entries@, marks@, i as int) is Some,
            best matches Some(b) ==> best_marked(entries@, marks@, i as int) == Some(b as int) && b
                < i,
        decreases entries@.len() - i,
    {
        if marks[i] {
            match best {
                None => {
                    best = Some(i);
                },
                Some(b) => {
                    if is_better(&entries[i], &entries[b]) {
                        best = Some(i);
                    }
                },
            }
        }
        i += 1;
    }
    best
}

/// The best search is beaten by none of the marked ones that the client held back as it did: where one
/// was not held back, the best was not either.
pub proof fn the_best_is_not_held_back(
    entries: Seq<SearchEntry>,
    marks: Seq<bool>,
    n: int,
    i: int,
    b: int,
)
    requires
        0 <= i < n <= marks.len(),
        marks[i],
        best_marked(entries, marks, n) == Some(b),
        !entries[i].results.client_saturated,
    ensures
        !entries[b].results.client_saturated,
    decreases n,
{
    lemma_best_is_marked(entries, marks, n - 1);
    if i < n - 1 {
        let c = best_marked(entries, marks, n - 1)->0;
        the_best_is_not_held_back(entries, marks, n - 1, i, c);
    }
}

/// The best of the marked searches has the highest rate of those that the client held back as it did: no
/// rate of such a search is above its own, and a search before it has a lower one.
pub proof fn the_best_has_the_highest_rate(
    entries: Seq<SearchEntry>,
    marks: Seq<bool>,
    n: int,
    i: int,
    b: int,
)
    requires
        0 <= i < n <= marks.len(),
        marks[i],
        best_marked(entries, marks, n) == Some(b),
        entries[i].results.client_saturated == entries[b].results.client_saturated,
        !float_bits::is_nan64(entries[i].results.rps_bits),
        !float_bits::is_nan64(entries[b].results.rps_bits),
    ensures
        !float_bits::less64(entries[b].results.rps_bits, entries[i].results.rps_bits),
        i < b ==> float_bits::less64(entries[i].results.rps_bits, entries[b].results.rps_bits),
        0 <= b < n && marks[b],
    decreases n,
{
    lemma_best_is_marked(entries, marks, n);
    lemma_best_is_marked(entries, marks, n - 1);
    if i < n - 1 {
        let c = best_marked(entries, marks, n - 1)->0;
        if b == c {
            the_best_has_the_highest_rate(entries, marks, n - 1, i, c);
        } else if entries[c].results.client_saturated == entries[b].results.client_saturated {
            the_best_has_the_highest_rate(entries, marks, n - 1, i, c);
        } else {
            the_best_is_not_held_back(entries, marks, n - 1, i, c);
        }
    }
}

/// Of each search, whether it has a key.
pub open spec fn key_marks(keys: Seq<Seq<char>>, key: Seq<char>) -> Seq<bool> {
    Seq::new(keys.len(), |i: int| keys[i] == key)
}

/// Of each search, whether it has a key.
fn mark_key(keys: &[String], key: &str) -> (r: Vec<bool>)
    ensures
        r@ == key_marks(text::texts_view(keys@), key@),
{
    let mut r: Vec<bool> = Vec::new();
    let mut i: usize = 0;
    let ghost views = text::texts_view(keys@);
    while i < keys.len()
        invariant
            i <= keys@.len(),
            r@.len() == i,
            views == text::texts_view(keys@),
            forall|j: int| 0 <= j < i ==> #[trigger] r@[j] == key_marks(views, key@)[j],
        decreases keys@.len() - i,
    {
        r.push(same_text(keys[i].as_str(), key));
        i += 1;
    }
    assert(r@ =~= key_marks(views, key@));
    r
}

/// The best search of each of the first `m` keys.
pub open spec fn best_of_keys(
    entries: Seq<SearchEntry>,
    keys: Seq<Seq<char>>,
    groups: Seq<Seq<char>>,
    m: int,
) -> Seq<int>
    decreases m,
{
    if m <= 0 {
        Seq::empty()
    } else {
        match best_marked(entries, key_marks(keys, groups[m - 1]), entries.len() as int) {
            Some(b) => best_of_keys(entries, keys, groups, m - 1).push(b),
            None => best_of_keys(entries, keys, groups, m - 1),
        }
    }
}

/// Whether a search is more precise than another.
pub open spec fn more_precise(a: SearchEntry, b: SearchEntry) -> bool {
    float_bits::less64(b.results.mean_precision_bits, a.results.mean_precision_bits)
}

/// A descending list with `x` behind all that are as precise.
pub open spec fn put_by_precision(entries: Seq<SearchEntry>, list: Seq<int>, x: int) -> Seq<int>
    decreases list.len(),
{
    if list.len() == 0 {
        seq![x]
    } else if more_precise(entries[x], entries[list.last()]) {
        put_by_precision(entries, list.drop_last(), x).push(list.last())
    } else {
        list.push(x)
    }
}

/// The first `n` of a list, the most precise first.
pub open spec fn by_precision(entries: Seq<SearchEntry>, list: Seq<int>, n: int) -> Seq<int>
    decreases n,
{
    if n <= 0 {
        Seq::empty()
    } else {
        put_by_precision(entries, by_precision(entries, list, n - 1), list[n - 1])
    }
}

/// Places as mathematical integers.
pub open spec fn places(s: Seq<usize>) -> Seq<int> {
    Seq::new(s.len(), |i: int| s[i] as int)
}

/// Where a search is put.
proof fn lemma_precision_place(entries: Seq<SearchEntry>, list: Seq<int>, x: int, at: int)
    requires
        0 <= at <= list.len(),
        forall|k: int| at <= k < list.len() ==> more_precise(entries[x], entries[#[trigger] list[k]]),
        at > 0 ==> !more_precise(entries[x], entries[list[at - 1]]),
    ensures
        put_by_precision(entries, list, x) == list.insert(at, x),
    decreases list.len(),
{
    if at == list.len() {
        assert(list.insert(at, x) =~= list.push(x));
        if list.len() == 0 {
            assert(list.push(x) =~= seq![x]);
        }
    } else {
        let front = list.drop_last();
        assert(more_precise(entries[x], entries[list[list.len() - 1]]));
        assert forall|k: int| at <= k < front.len() implies more_precise(
            entries[x],
            entries[#[trigger] front[k]],
        ) by {
            assert(list[k] == front[k]);
        }
        lemma_precision_place(entries, front, x, at);
        assert(list.insert(at, x) =~= front.insert(at, x).push(list.last()));
    }
}

/// The best search at each precision, the most precise first. `keys` holds of each search the text that
/// its precision is rounded to.
pub open spec fn precision_summary(entries: Seq<SearchEntry>, keys: Seq<Seq<char>>) -> Seq<int> {
    let groups = sorted_texts::distinct(keys, keys.len() as int);
    let best = best_of_keys(entries, keys, groups, groups.len() as int);
    by_precision(entries, best, best.len() as int)
}

/// Whether the precisions can be put in order: there is one to show at most, or all are numbers.
pub open spec fn precisions_compare(entries: Seq<SearchEntry>, keys: Seq<Seq<char>>) -> bool {
    sorted_texts::distinct(keys, keys.len() as int).len() > 1 ==> forall|i: int|
        0 <= i < entries.len() ==> !float_bits::is_nan64(
            (#[trigger] entries[i]).results.mean_precision_bits,
        )
}

/// The best search at each precision, the most precise first.
pub fn analyze_precision_performance(entries: &[SearchEntry], keys: &[String]) -> (r: Vec<usize>)
    requires
        keys@.len() == entries@.len(),
        precisions_compare(entries@, text::texts_view(keys@)),
    ensures
        places(r@) == precision_summary(entries@, text::texts_view(keys@)),
        forall|i: int| 0 <= i < r@.len() ==> (#[trigger] r@[i]) < entries@.len(),
{
    let groups: Vec<String> = sorted_texts::sorted_distinct(keys);
    let ghost key_views = text::texts_view(keys@);
    let ghost group_views = text::texts_view(groups@);
    let ghost n = entries@.len() as int;
    let mut sorted: Vec<usize> = Vec::new();
    let ghost mut best: Seq<int> = Seq::empty();
    let mut g: usize = 0;
    assert(places(sorted@) =~= Seq::empty());
    while g < groups.len()
        invariant
            g <= groups@.len(),
            keys@.len() == entries@.len(),
            n == entries@.len(),
            key_views == text::texts_view(keys@),
            group_views == text::texts_view(groups@),
            best == best_of_keys(entries@, key_views, group_views, g as int),
            places(sorted@) == by_precision(entries@, best, best.len() as int),
            forall|i: int| 0 <= i < sorted@.len() ==> (#[trigger] sorted@[i]) < entries@.len(),
        decreases groups@.len() - g,
    {
        let marks: Vec<bool> = mark_key(keys, groups[g].as_str());
        assert(marks@ == key_marks(key_views, group_views[g as int]));
        if let Some(b) = find_best(entries, &marks) {
            let ghost list = places(sorted@);
            let mut at: usize = sorted.len();
            while at > 0 && below64(
                entries[sorted[at - 1]].results.mean_precision_bits,
                entries[b].results.mean_precision_bits,
            )
                invariant
                    at <= sorted@.len(),
                    b < entries@.len(),
                    list == places(sorted@),
                    forall|i: int| 0 <= i < sorted@.len() ==> (#[trigger] sorted@[i]) < entries@.len(),
                    forall|k: int|
                        at <= k < list.len() ==> more_precise(
                            entries@[b as int],
                            entries@[#[trigger] list[k]],
                        ),
                decreases at,
            {
                assert(list[at - 1] == sorted@[at - 1]);
                at -= 1;
            }
            proof {
                if at > 0 {
                    assert(list[at - 1] == sorted@[at - 1]);
                }
                lemma_precision_place(entries@, list, b as int, at as int);
                let before = best;
                best = best.push(b as int);
                lemma_by_precision_prefix(entries@, before, b as int, before.len() as int);
            }
            sorted.insert(at, b);
            assert(places(sorted@) =~= list.insert(at as int, b as int));
        }
        g += 1;
    }
    sorted
}

/// More of a list does not change how the first are put.
proof fn lemma_by_precision_prefix(entries: Seq<SearchEntry>, list: Seq<int>, x: int, n: int)
    requires
        0 <= n <= list.len(),
    ensures
        by_precision(entries, list.push(x), n) == by_precision(entries, list, n),
    decreases n,
{
    if n > 0 {
        lemma_by_precision_prefix(entries, list, x, n - 1);
    }
}

/// The best searches of the first keys, one for each.
proof fn lemma_best_of_keys(
    entries: Seq<SearchEntry>,
    keys: Seq<Seq<char>>,
    groups: Seq<Seq<char>>,
    m: int,
)
    requires
        keys.len() == entries.len(),
        0 <= m <= groups.len(),
        forall|g: int| 0 <= g < groups.len() ==> keys.contains(#[trigger] groups[g]),
    ensures
        best_of_keys(entries, keys, groups, m).len() == m,
        forall|g: int|
            0 <= g < m ==> 0 <= (#[trigger] best_of_keys(entries, keys, groups, m)[g])
                < entries.len() && keys[best_of_keys(entries, keys, groups, m)[g]] == groups[g]
                && best_marked(entries, key_marks(keys, groups[g]), entries.len() as int) == Some(
                best_of_keys(entries, keys, groups, m)[g],
            ),
    decreases m,
{
    if m > 0 {
        lemma_best_of_keys(entries, keys, groups, m - 1);
        let marks = key_marks(keys, groups[m - 1]);
        lemma_best_is_marked(entries, marks, entries.len() as int);
        assert(keys.contains(groups[m - 1]));
        let i = choose|i: int| 0 <= i < keys.len() && keys[i] == groups[m - 1];
        assert(marks[i]);
    }
}

/// Whether a list is one of searches by descending precision.
pub open spec fn descends(entries: Seq<SearchEntry>, list: Seq<int>) -> bool {
    forall|i: int, j: int|
        0 <= i < j < list.len() ==> !float_bits::less64(
            entries[#[trigger] list[i]].results.mean_precision_bits,
            entries[#[trigger] list[j]].results.mean_precision_bits,
        )
}

/// A search that is put stands between the more precise and the others.
proof fn lemma_put_by_precision(entries: Seq<SearchEntry>, list: Seq<int>, x: int)
    requires
        descends(entries, list),
        list.len() > 0 ==> !float_bits::is_nan64(entries[x].results.mean_precision_bits),
        list.len() > 0 ==> forall|i: int|
            0 <= i < list.len() ==> !float_bits::is_nan64(
                entries[#[trigger] list[i]].results.mean_precision_bits,
            ),
    ensures
        descends(entries, put_by_precision(entries, list, x)),
        put_by_precision(entries, list, x).len() == list.len() + 1,
        forall|y: int|
            #![trigger put_by_precision(entries, list, x).contains(y)]
            put_by_precision(entries, list, x).contains(y) <==> list.contains(y) || y == x,
    decreases list.len(),
{
    let result = put_by_precision(entries, list, x);
    if list.len() == 0 {
        assert(result[0] == x);
    } else if more_precise(entries[x], entries[list.last()]) {
        let front = list.drop_last();
        let last = list.last();
        assert forall|i: int, j: int| 0 <= i < j < front.len() implies !float_bits::less64(
            entries[#[trigger] front[i]].results.mean_precision_bits,
            entries[#[trigger] front[j]].results.mean_precision_bits,
        ) by {
            assert(list[i] == front[i] && list[j] == front[j]);
        }
        assert forall|i: int| 0 <= i < front.len() implies !float_bits::is_nan64(
            entries[#[trigger] front[i]].results.mean_precision_bits,
        ) by {
            assert(list[i] == front[i]);
        }
        lemma_put_by_precision(entries, front, x);
        let earlier = put_by_precision(entries, front, x);
        assert forall|y: int| #[trigger] result.contains(y) <==> list.contains(y) || y == x by {
            assert(earlier.contains(y) <==> front.contains(y) || y == x);
            if result.contains(y) {
                let i = choose|i: int| 0 <= i < result.len() && result[i] == y;
                if i < earlier.len() {
                    assert(earlier[i] == y);
                    assert(earlier.contains(y));
                    if y != x {
                        let k = choose|k: int| 0 <= k < front.len() && front[k] == y;
                        assert(list[k] == y);
                    }
                } else {
                    assert(list[list.len() - 1] == y);
                }
            }
            if list.contains(y) {
                let k = choose|k: int| 0 <= k < list.len() && list[k] == y;
                if k < front.len() {
                    assert(front[k] == y);
                    assert(earlier.contains(y));
                } else {
                    assert(result[earlier.len() as int] == y);
                }
            }
            if earlier.contains(y) {
                let i = choose|i: int| 0 <= i < earlier.len() && earlier[i] == y;
                assert(result[i] == y);
            }
        }
        assert forall|i: int, j: int| 0 <= i < j < result.len() implies !float_bits::less64(
            entries[#[trigger] result[i]].results.mean_precision_bits,
            entries[#[trigger] result[j]].results.mean_precision_bits,
        ) by {
            if j < earlier.len() {
                assert(result[i] == earlier[i] && result[j] == earlier[j]);
            } else {
                assert(earlier.contains(earlier[i]));
                if earlier[i] != x {
                    let k = choose|k: int| 0 <= k < front.len() && front[k] == earlier[i];
                    assert(list[k] == earlier[i]);
                    assert(list[list.len() - 1] == last);
                }
            }
        }
    } else {
        assert(result == list.push(x));
        assert forall|y: int| #[trigger] result.contains(y) <==> list.contains(y) || y == x by {
            if result.contains(y) {
                let i = choose|i: int| 0 <= i < result.len() && result[i] == y;
                if i < list.len() {
                    assert(list[i] == y);
                }
            }
            if list.contains(y) {
                let k = choose|k: int| 0 <= k < list.len() && list[k] == y;
                assert(result[k] == y);
            }
            assert(result[list.len() as int] == x);
        }
        assert forall|i: int, j: int| 0 <= i < j < result.len() implies !float_bits::less64(
            entries[#[trigger] result[i]].results.mean_precision_bits,
            entries[#[trigger] result[j]].results.mean_precision_bits,
        ) by {
            if j < list.len() {
                assert(result[i] == list[i] && result[j] == list[j]);
            } else {
                let last = list[list.len() - 1];
                assert(!float_bits::is_nan64(entries[last].results.mean_precision_bits));
                if i < list.len() - 1 {
                    assert(!float_bits::is_nan64(entries[list[i]].results.mean_precision_bits));
                    assert(!float_bits::less64(
                        entries[list[i]].results.mean_precision_bits,
                        entries[last].results.mean_precision_bits,
                    ));
                }
            }
        }
    }
}

/// A list put in order holds what it held, the most precise first.
proof fn lemma_by_precision(entries: Seq<SearchEntry>, list: Seq<int>, n: int)
    requires
        0 <= n <= list.len(),
        list.len() > 1 ==> forall|i: int|
            0 <= i < list.len() ==> !float_bits::is_nan64(
                entries[#[trigger] list[i]].results.mean_precision_bits,
            ),
    ensures
        descends(entries, by_precision(entries, list, n)),
        by_precision(entries, list, n).len() == n,
        forall|y: int|
            #![trigger by_precision(entries, list, n).contains(y)]
            by_precision(entries, list, n).contains(y) <==> list.take(n).contains(y),
    decreases n,
{
    if n > 0 {
        lemma_by_precision(entries, list, n - 1);
        let before = by_precision(entries, list, n - 1);
        let x = list[n - 1];
        if before.len() > 0 {
            assert forall|i: int| 0 <= i < before.len() implies !float_bits::is_nan64(
                entries[#[trigger] before[i]].results.mean_precision_bits,
            ) by {
                assert(before.contains(before[i]));
                let front = list.take(n - 1);
                assert(front.contains(before[i]));
                let k = choose|k: int| 0 <= k < front.len() && front[k] == before[i];
                assert(list[k] == before[i]);
            }
        }
        lemma_put_by_precision(entries, before, x);
        assert forall|y: int| #[trigger] by_precision(entries, list, n).contains(y) <==> list.take(
            n,
        ).contains(y) by {
            assert(before.contains(y) <==> list.take(n - 1).contains(y));
            if list.take(n).contains(y) {
                let all = list.take(n);
                let k = choose|k: int| 0 <= k < all.len() && all[k] == y;
                if k < n - 1 {
                    assert(list.take(n - 1)[k] == y);
                }
            }
            if list.take(n - 1).contains(y) {
                let front = list.take(n - 1);
                let k = choose|k: int| 0 <= k < front.len() && front[k] == y;
                assert(list.take(n)[k] == y);
            }
            if y == x {
                assert(list.take(n)[n - 1] == y);
            }
        }
    }
}

/// The keys of searches, ascending, and the best search of each.
proof fn lemma_groups(entries: Seq<SearchEntry>, keys: Seq<Seq<char>>) -> (r: (
    Seq<Seq<char>>,
    Seq<int>,
))
    requires
        keys.len() == entries.len(),
        precisions_compare(entries, keys),
    ensures
        r.0 == sorted_texts::distinct(keys, keys.len() as int),
        r.1 == best_of_keys(entries, keys, r.0, r.0.len() as int),
        r.0.no_duplicates(),
        forall|t: Seq<char>| #[trigger] r.0.contains(t) <==> keys.contains(t),
        r.1.len() == r.0.len(),
        forall|g: int|
            0 <= g < r.1.len() ==> 0 <= (#[trigger] r.1[g]) < entries.len() && keys[r.1[g]] == r.0[g]
                && best_marked(entries, key_marks(keys, r.0[g]), entries.len() as int) == Some(
                r.1[g],
            ),
        precision_summary(entries, keys).len() == r.1.len(),
        descends(entries, precision_summary(entries, keys)),
        forall|y: int| #[trigger]
            precision_summary(entries, keys).contains(y) <==> r.1.contains(y),
{
    let groups = sorted_texts::distinct(keys, keys.len() as int);
    sorted_texts::distinct_texts_ascend(keys, keys.len() as int);
    assert(keys.take(keys.len() as int) =~= keys);
    assert forall|g: int| 0 <= g < groups.len() implies keys.contains(#[trigger] groups[g]) by {
        assert(groups.contains(groups[g]));
    }
    let m = groups.len() as int;
    lemma_best_of_keys(entries, keys, groups, m);
    let best = best_of_keys(entries, keys, groups, m);
    lemma_by_precision(entries, best, m);
    assert(best.take(m) =~= best);
    assert forall|g: int, h: int|
        0 <= g < groups.len() && 0 <= h < groups.len() && g != h implies groups[g] != groups[h] by {
        sorted_texts::text_order_is_total(groups[g], groups[g]);
        if g < h {
            assert(text::text_less(groups[g], groups[h]));
        } else {
            assert(text::text_less(groups[h], groups[g]));
        }
    }
    (groups, best)
}

/// The place among the keys of a search that a summary shows.
proof fn lemma_shown(entries: Seq<SearchEntry>, keys: Seq<Seq<char>>, j: int) -> (g: int)
    requires
        keys.len() == entries.len(),
        precisions_compare(entries, keys),
        0 <= j < precision_summary(entries, keys).len(),
    ensures
        ({
            let b = precision_summary(entries, keys)[j];
            &&& 0 <= b < entries.len()
            &&& best_marked(entries, key_marks(keys, keys[b]), entries.len() as int) == Some(b)
            &&& 0 <= g < sorted_texts::distinct(keys, keys.len() as int).len()
            &&& sorted_texts::distinct(keys, keys.len() as int)[g] == keys[b]
            &&& best_of_keys(
                entries,
                keys,
                sorted_texts::distinct(keys, keys.len() as int),
                sorted_texts::distinct(keys, keys.len() as int).len() as int,
            )[g] == b
        }),
{
    let (groups, best) = lemma_groups(entries, keys);
    let shown = precision_summary(entries, keys);
    assert(shown.contains(shown[j]));
    let g = choose|g: int| 0 <= g < best.len() && best[g] == shown[j];
    assert(0 <= best[g] < entries.len());
    g
}

/// A summary by precision shows a search for every precision that was reached.
pub proof fn every_precision_is_shown(
    entries: Seq<SearchEntry>,
    keys: Seq<Seq<char>>,
    i: int,
) -> (j: int)
    requires
        keys.len() == entries.len(),
        precisions_compare(entries, keys),
        0 <= i < entries.len(),
    ensures
        0 <= j < precision_summary(entries, keys).len(),
        keys[precision_summary(entries, keys)[j]] == keys[i],
{
    let (groups, best) = lemma_groups(entries, keys);
    let shown = precision_summary(entries, keys);
    assert(keys.contains(keys[i]));
    assert(groups.contains(keys[i]));
    let g = choose|g: int| 0 <= g < groups.len() && groups[g] == keys[i];
    assert(keys[best[g]] == groups[g]);
    assert(best.contains(best[g]));
    assert(shown.contains(best[g]));
    choose|j: int| 0 <= j < shown.len() && shown[j] == best[g]
}

/// A summary by precision shows no precision twice, and the most precise first.
pub proof fn precisions_are_shown_once(
    entries: Seq<SearchEntry>,
    keys: Seq<Seq<char>>,
    j: int,
    l: int,
)
    requires
        keys.len() == entries.len(),
        precisions_compare(entries, keys),
        0 <= j < l < precision_summary(entries, keys).len(),
    ensures
        ({
            let shown = precision_summary(entries, keys);
            &&& 0 <= shown[j] < entries.len() && 0 <= shown[l] < entries.len()
            &&& keys[shown[j]] != keys[shown[l]]
            &&& !float_bits::less64(
                entries[shown[j]].results.mean_precision_bits,
                entries[shown[l]].results.mean_precision_bits,
            )
        }),
{
    let (groups, best) = lemma_groups(entries, keys);
    let shown = precision_summary(entries, keys);
    assert(best.no_duplicates()) by {
        assert forall|g: int, h: int|
            0 <= g < best.len() && 0 <= h < best.len() && g != h implies best[g] != best[h] by {
            assert(keys[best[g]] == groups[g]);
            assert(keys[best[h]] == groups[h]);
        }
    }
    assert(shown.no_duplicates()) by {
        best.unique_seq_to_set();
        assert(shown.to_set() =~= best.to_set()) by {
            assert forall|y: int| shown.contains(y) <==> best.contains(y) by {}
        }
        shown.lemma_no_dup_set_cardinality();
    }
    let g = lemma_shown(entries, keys, j);
    let h = lemma_shown(entries, keys, l);
}

/// The search that a summary shows of a precision was not held back by the client where another of that
/// precision was not, and of those held back alike it has the highest rate, in whichever order they were
/// made.
pub proof fn the_best_search_of_a_precision_is_shown(
    entries: Seq<SearchEntry>,
    keys: Seq<Seq<char>>,
    i: int,
    j: int,
)
    requires
        keys.len() == entries.len(),
        precisions_compare(entries, keys),
        0 <= i < entries.len(),
        0 <= j < precision_summary(entries, keys).len(),
        keys[precision_summary(entries, keys)[j]] == keys[i],
    ensures
        ({
            let best = entries[precision_summary(entries, keys)[j]].results;
            let other = entries[i].results;
            &&& 0 <= precision_summary(entries, keys)[j] < entries.len()
            &&& !other.client_saturated ==> !best.client_saturated
            &&& other.client_saturated == best.client_saturated && !float_bits::is_nan64(
                other.rps_bits,
            ) && !float_bits::is_nan64(best.rps_bits) ==> !float_bits::less64(
                best.rps_bits,
                other.rps_bits,
            )
        }),
{
    let n = entries.len() as int;
    let b = precision_summary(entries, keys)[j];
    let g = lemma_shown(entries, keys, j);
    let marks = key_marks(keys, keys[b]);
    assert(marks[i]);
    if !entries[i].results.client_saturated {
        the_best_is_not_held_back(entries, marks, n, i, b);
    }
    if entries[i].results.client_saturated == entries[b].results.client_saturated
        && !float_bits::is_nan64(entries[i].results.rps_bits) && !float_bits::is_nan64(
        entries[b].results.rps_bits,
    ) {
        the_best_has_the_highest_rate(entries, marks, n, i, b);
    }
}

/// Whether a search measured a precision: a search by filters alone has none, which is told by a number
/// below zero.
pub open spec fn has_precision(e: SearchEntry) -> bool {
    !float_bits::less64(e.results.mean_precision_bits, 0)
}

/// Whether none of the searches measured a precision.
pub fn filter_only(entries: &[SearchEntry]) -> (r: bool)
    ensures
        r == (forall|i: int| 0 <= i < entries@.len() ==> !has_precision(#[trigger] entries@[i])),
{
    let mut i: usize = 0;
    while i < entries.len()
        invariant
            i <= entries@.len(),
            forall|j: int| 0 <= j < i ==> !has_precision(#[trigger] entries@[j]),
        decreases entries@.len() - i,
    {
        if !below64(entries[i].results.mean_precision_bits, 0) {
            return false;
        }
        i += 1;
    }
    true
}

/// An ascending list of numbers with `x` at its place; the list itself where it holds `x` already.
pub open spec fn with_level(list: Seq<i64>, x: i64) -> Seq<i64>
    decreases list.len(),
{
    if list.len() == 0 {
        seq![x]
    } else if x < list.last() {
        with_level(list.drop_last(), x).push(list.last())
    } else if list.last() == x {
        list
    } else {
        list.push(x)
    }
}

/// Where a number is put.
proof fn lemma_level_place(list: Seq<i64>, x: i64, at: int)
    requires
        0 <= at <= list.len(),
        forall|k: int| at <= k < list.len() ==> x < #[trigger] list[k],
        at > 0 ==> list[at - 1] <= x,
    ensures
        at > 0 && list[at - 1] == x ==> with_level(list, x) == list,
        !(at > 0 && list[at - 1] == x) ==> with_level(list, x) == list.insert(at, x),
    decreases list.len(),
{
    if at == list.len() {
        assert(list.insert(at, x) =~= list.push(x));
        if list.len() == 0 {
            assert(list.push(x) =~= seq![x]);
        }
    } else {
        let front = list.drop_last();
        assert(x < list[list.len() - 1]);
        assert forall|k: int| at <= k < front.len() implies x < #[trigger] front[k] by {
            assert(list[k] == front[k]);
        }
        lemma_level_place(front, x, at);
        assert(list =~= front.push(list.last()));
        assert(list.insert(at, x) =~= front.insert(at, x).push(list.last()));
    }
}

/// Puts a number at its place in an ascending list.
fn put_level(list: &mut Vec<i64>, x: i64)
    ensures
        final(list)@ == with_level(old(list)@, x),
{
    let mut at: usize = list.len();
    while at > 0 && x < list[at - 1]
        invariant
            at <= list@.len(),
            forall|k: int| at <= k < list@.len() ==> x < #[trigger] list@[k],
        decreases at,
    {
        at -= 1;
    }
    proof {
        lemma_level_place(list@, x, at as int);
    }
    if at > 0 && list[at - 1] == x {
        return;
    }
    list.insert(at, x);
}

/// The breadths of the first `n` searches with a precision, ascending, each once.
pub open spec fn curve_efs(entries: Seq<SearchEntry>, n: int) -> Seq<Seq<char>>
    decreases n,
{
    if n <= 0 {
        Seq::empty()
    } else if has_precision(entries[n - 1]) {
        sorted_texts::with_text(curve_efs(entries, n - 1), entries[n - 1].ef@)
    } else {
        curve_efs(entries, n - 1)
    }
}

/// Whether a search is on the curve of a breadth.
pub open spec fn on_curve(e: SearchEntry, ef: Seq<char>) -> bool {
    has_precision(e) && e.ef@ == ef
}

/// The numbers of clients of the first `n` searches on a curve, ascending, each once.
pub open spec fn curve_levels(entries: Seq<SearchEntry>, ef: Seq<char>, n: int) -> Seq<i64>
    decreases n,
{
    if n <= 0 {
        Seq::empty()
    } else if on_curve(entries[n - 1], ef) {
        with_level(curve_levels(entries, ef, n - 1), entries[n - 1].parallel)
    } else {
        curve_levels(entries, ef, n - 1)
    }
}

/// Of each search, whether it is on a curve at a number of clients.
pub open spec fn level_marks(entries: Seq<SearchEntry>, ef: Seq<char>, level: i64) -> Seq<bool> {
    Seq::new(entries.len(), |i: int| on_curve(entries[i], ef) && entries[i].parallel == level)
}

/// The best search at each of the first `m` numbers of clients.
pub open spec fn curve_points(
    entries: Seq<SearchEntry>,
    ef: Seq<char>,
    levels: Seq<i64>,
    m: int,
) -> Seq<int>
    decreases m,
{
    if m <= 0 {
        Seq::empty()
    } else {
        match best_marked(entries, level_marks(entries, ef, levels[m - 1]), entries.len() as int) {
            Some(b) => curve_points(entries, ef, levels, m - 1).push(b),
            None => curve_points(entries, ef, levels, m - 1),
        }
    }
}

/// The bit pattern of negative infinity.
pub const NEGATIVE_INFINITE64: u64 = 0xfff0_0000_0000_0000;

/// The first of the first `n` points with the highest rate.
pub open spec fn peak(entries: Seq<SearchEntry>, points: Seq<int>, n: int) -> Option<int>
    decreases n,
{
    if n <= 0 {
        None
    } else {
        let before = peak(entries, points, n - 1);
        let most = match before {
            Some(b) => entries[b].results.rps_bits,
            None => NEGATIVE_INFINITE64,
        };
        if float_bits::less64(most, entries[points[n - 1]].results.rps_bits) {
            Some(points[n - 1])
        } else {
            before
        }
    }
}

/// A curve over the number of clients at one breadth of the search: its points by ascending number of
/// clients, the one with the highest rate, its number of clients, and that number again where more
/// clients were tried and did not help.
#[derive(Debug)]
pub struct ConcurrencyCurve {
    pub ef: String,
    pub points: Vec<usize>,
    pub peak: Option<usize>,
    pub max_qps_parallel: i64,
    pub knee_parallel: Option<i64>,
}

/// A place that may be missing.
pub open spec fn place_of(p: Option<usize>) -> Option<int> {
    match p {
        Some(i) => Some(i as int),
        None => None,
    }
}

/// The number of clients at the highest rate.
pub open spec fn peak_parallel(entries: Seq<SearchEntry>, points: Seq<int>) -> i64 {
    match peak(entries, points, points.len() as int) {
        Some(b) => entries[b].parallel,
        None => entries[points[0]].parallel,
    }
}

/// What a curve is.
#[verifier::ext_equal]
pub struct CurveView {
    pub ef: Seq<char>,
    pub points: Seq<int>,
    pub peak: Option<int>,
    pub max_qps_parallel: i64,
    pub knee_parallel: Option<i64>,
}

impl View for ConcurrencyCurve {
    type V = CurveView;

    open spec fn view(&self) -> CurveView {
        CurveView {
            ef: self.ef@,
            points: places(self.points@),
            peak: place_of(self.peak),
            max_qps_parallel: self.max_qps_parallel,
            knee_parallel: self.knee_parallel,
        }
    }
}

/// The curve of a breadth.
pub open spec fn curve_of(entries: Seq<SearchEntry>, ef: Seq<char>) -> CurveView {
    let levels = curve_levels(entries, ef, entries.len() as int);
    let points = curve_points(entries, ef, levels, levels.len() as int);
    let best = peak_parallel(entries, points);
    CurveView {
        ef,
        points,
        peak: peak(entries, points, points.len() as int),
        max_qps_parallel: best,
        knee_parallel: if best < entries[points.last()].parallel {
            Some(best)
        } else {
            None
        },
    }
}

/// Whether the places of a curve are ones of searches.
pub open spec fn points_into(c: ConcurrencyCurve, n: int) -> bool {
    &&& forall|i: int| 0 <= i < c.points@.len() ==> (#[trigger] c.points@[i]) < n
    &&& c.peak matches Some(b) ==> b < n
}

/// The breadths at which several numbers of clients were tried.
pub open spec fn swept_efs(entries: Seq<SearchEntry>, efs: Seq<Seq<char>>, m: int) -> Seq<Seq<char>>
    decreases m,
{
    if m <= 0 {
        Seq::empty()
    } else if curve_levels(entries, efs[m - 1], entries.len() as int).len() >= 2 {
        swept_efs(entries, efs, m - 1).push(efs[m - 1])
    } else {
        swept_efs(entries, efs, m - 1)
    }
}

/// A level that is put is in the list, and nothing else is added.
proof fn lemma_with_level(list: Seq<i64>, x: i64)
    ensures
        forall|y: i64|
            #![trigger with_level(list, x).contains(y)]
            with_level(list, x).contains(y) ==> list.contains(y) || y == x,
    decreases list.len(),
{
    let result = with_level(list, x);
    if list.len() > 0 && x < list.last() {
        let front = list.drop_last();
        lemma_with_level(front, x);
        let sorted = with_level(front, x);
        assert forall|y: i64| #[trigger] result.contains(y) implies list.contains(y) || y == x by {
            let i = choose|i: int| 0 <= i < result.len() && result[i] == y;
            if i < sorted.len() {
                assert(sorted.contains(y));
                if y != x {
                    let k = choose|k: int| 0 <= k < front.len() && front[k] == y;
                    assert(list[k] == y);
                }
            } else {
                assert(list[list.len() - 1] == y);
            }
        }
    } else if list.len() > 0 && list.last() != x {
        assert forall|y: i64| #[trigger] result.contains(y) implies list.contains(y) || y == x by {
            let i = choose|i: int| 0 <= i < result.len() && result[i] == y;
            if i < list.len() {
                assert(list[i] == y);
            }
        }
    }
}

/// At every number of clients of a curve there is a search.
proof fn lemma_levels_are_searched(entries: Seq<SearchEntry>, ef: Seq<char>, n: int, level: i64)
    requires
        0 <= n <= entries.len(),
        curve_levels(entries, ef, n).contains(level),
    ensures
        exists|i: int|
            0 <= i < n && on_curve(#[trigger] entries[i], ef) && entries[i].parallel == level,
    decreases n,
{
    if n > 0 {
        if on_curve(entries[n - 1], ef) {
            let before = curve_levels(entries, ef, n - 1);
            lemma_with_level(before, entries[n - 1].parallel);
            assert(with_level(before, entries[n - 1].parallel).contains(level));
            if level != entries[n - 1].parallel {
                lemma_levels_are_searched(entries, ef, n - 1, level);
            }
        } else {
            lemma_levels_are_searched(entries, ef, n - 1, level);
        }
    }
}

/// The curve of a breadth, where several numbers of clients were tried.
fn find_curve(entries: &[SearchEntry], ef: &str) -> (r: Option<ConcurrencyCurve>)
    ensures
        curve_levels(entries@, ef@, entries@.len() as int).len() < 2 ==> r is None,
        curve_levels(entries@, ef@, entries@.len() as int).len() >= 2 ==> (r matches Some(c) && c@
            == curve_of(entries@, ef@) && points_into(c, entries@.len() as int)),
{
    let ghost n = entries@.len() as int;
    let mut levels: Vec<i64> = Vec::new();
    let mut i: usize = 0;
    while i < entries.len()
        invariant
            i <= entries@.len(),
            levels@ == curve_levels(entries@, ef@, i as int),
        decreases entries@.len() - i,
    {
        if !below64(entries[i].results.mean_precision_bits, 0) && same_text(
            entries[i].ef.as_str(),
            ef,
        ) {
            put_level(&mut levels, entries[i].parallel);
        }
        i += 1;
    }
    if levels.len() < 2 {
        return None;
    }
    let mut points: Vec<usize> = Vec::new();
    let mut m: usize = 0;
    assert(places(points@) =~= Seq::empty());
    while m < levels.len()
        invariant
            m <= levels@.len(),
            n == entries@.len(),
            levels@ == curve_levels(entries@, ef@, n),
            points@.len() == m,
            places(points@) == curve_points(entries@, ef@, levels@, m as int),
            forall|j: int| 0 <= j < points@.len() ==> (#[trigger] points@[j]) < entries@.len(),
        decreases levels@.len() - m,
    {
        let level: i64 = levels[m];
        let mut marks: Vec<bool> = Vec::new();
        let mut j: usize = 0;
        while j < entries.len()
            invariant
                j <= entries@.len(),
                marks@.len() == j,
                forall|k: int|
                    0 <= k < j ==> #[trigger] marks@[k] == level_marks(entries@, ef@, level)[k],
            decreases entries@.len() - j,
        {
            marks.push(
                !below64(entries[j].results.mean_precision_bits, 0) && same_text(
                    entries[j].ef.as_str(),
                    ef,
                ) && entries[j].parallel == level,
            );
            j += 1;
        }
        assert(marks@ =~= level_marks(entries@, ef@, level));
        let found: Option<usize> = find_best(entries, &marks);
        proof {
            assert(levels@[m as int] == level);
            lemma_levels_are_searched(entries@, ef@, n, level);
            let k = choose|k: int|
                0 <= k < n && on_curve(#[trigger] entries@[k], ef@) && entries@[k].parallel == level;
            assert(marks@[k]);
            lemma_best_is_marked(entries@, marks@, n);
        }
        let ghost before = places(points@);
        if let Some(b) = found {
            points.push(b);
            assert(places(points@) =~= before.push(b as int));
        }
        m += 1;
    }
    let ghost point_views = places(points@);
    let mut best: Option<usize> = None;
    let mut k: usize = 0;
    while k < points.len()
        invariant
            k <= points@.len(),
            point_views == places(points@),
            forall|j: int| 0 <= j < points@.len() ==> (#[trigger] points@[j]) < entries@.len(),
            place_of(best) == peak(entries@, point_views, k as int),
            best matches Some(b) ==> b < entries@.len(),
        decreases points@.len() - k,
    {
        assert(point_views[k as int] == points@[k as int]);
        let most: u64 = match best {
            Some(b) => entries[b].results.rps_bits,
            None => NEGATIVE_INFINITE64,
        };
        if below64(most, entries[points[k]].results.rps_bits) {
            best = Some(points[k]);
        }
        k += 1;
    }
    assert(point_views[0] == points@[0]);
    assert(point_views.last() == points@[points@.len() - 1]);
    let parallel: i64 = match best {
        Some(b) => entries[b].parallel,
        None => entries[points[0]].parallel,
    };
    let highest: i64 = entries[points[points.len() - 1]].parallel;
    let c: ConcurrencyCurve = ConcurrencyCurve {
        ef: ef.to_owned(),
        points,
        peak: best,
        max_qps_parallel: parallel,
        knee_parallel: if parallel < highest {
            Some(parallel)
        } else {
            None
        },
    };
    assert(c@ =~= curve_of(entries@, ef@));
    Some(c)
}

/// The curves over the number of clients, by ascending text of the breadth.
pub open spec fn all_curves(entries: Seq<SearchEntry>) -> Seq<CurveView> {
    let efs = curve_efs(entries, entries.len() as int);
    let swept = swept_efs(entries, efs, efs.len() as int);
    Seq::new(swept.len(), |i: int| curve_of(entries, swept[i]))
}

/// The views of curves.
pub open spec fn curve_views(curves: Seq<ConcurrencyCurve>) -> Seq<CurveView> {
    Seq::new(curves.len(), |i: int| curves[i]@)
}

/// The curves over the number of clients, by ascending text of the breadth. A breadth with one number
/// of clients has none, and searches without a precision are on none.
pub fn concurrency_curves(entries: &[SearchEntry]) -> (r: Vec<ConcurrencyCurve>)
    ensures
        curve_views(r@) == all_curves(entries@),
        forall|i: int| 0 <= i < r@.len() ==> points_into(#[trigger] r@[i], entries@.len() as int),
{
    let mut efs: Vec<String> = Vec::new();
    let mut i: usize = 0;
    assert(text::texts_view(efs@) =~= Seq::empty());
    while i < entries.len()
        invariant
            i <= entries@.len(),
            text::texts_view(efs@) == curve_efs(entries@, i as int),
        decreases entries@.len() - i,
    {
        if !below64(entries[i].results.mean_precision_bits, 0) {
            put_text(&mut efs, entries[i].ef.as_str());
        }
        i += 1;
    }
    let ghost views = text::texts_view(efs@);
    let mut curves: Vec<ConcurrencyCurve> = Vec::new();
    let mut m: usize = 0;
    while m < efs.len()
        invariant
            m <= efs@.len(),
            views == text::texts_view(efs@),
            curves@.len() == swept_efs(entries@, views, m as int).len(),
            forall|k: int|
                0 <= k < curves@.len() ==> points_into(
                    #[trigger] curves@[k],
                    entries@.len() as int,
                ) && curves@[k]@ == curve_of(entries@, swept_efs(entries@, views, m as int)[k]),
        decreases efs@.len() - m,
    {
        assert(views[m as int] == efs@[m as int]@);
        if let Some(c) = find_curve(entries, efs[m].as_str()) {
            curves.push(c);
        }
        m += 1;
    }
    assert(curve_views(curves@) =~= all_curves(entries@));
    curves
}

/// Whether a search comes before another by its number of clients.
pub open spec fn fewer_clients(a: SearchEntry, b: SearchEntry) -> bool {
    a.parallel < b.parallel
}

/// An ascending list with `x` behind all that do not have more clients.
pub open spec fn put_by_clients(entries: Seq<SearchEntry>, list: Seq<int>, x: int) -> Seq<int>
    decreases list.len(),
{
    if list.len() == 0 {
        seq![x]
    } else if fewer_clients(entries[x], entries[list.last()]) {
        put_by_clients(entries, list.drop_last(), x).push(list.last())
    } else {
        list.push(x)
    }
}

/// The marked searches among the first `n` by ascending number of clients; equal ones in their order.
pub open spec fn by_clients(entries: Seq<SearchEntry>, marks: Seq<bool>, n: int) -> Seq<int>
    decreases n,
{
    if n <= 0 {
        Seq::empty()
    } else if marks[n - 1] {
        put_by_clients(entries, by_clients(entries, marks, n - 1), n - 1)
    } else {
        by_clients(entries, marks, n - 1)
    }
}

/// Where a search is put.
proof fn lemma_clients_place(entries: Seq<SearchEntry>, list: Seq<int>, x: int, at: int)
    requires
        0 <= at <= list.len(),
        forall|k: int| at <= k < list.len() ==> fewer_clients(entries[x], entries[#[trigger] list[k]]),
        at > 0 ==> !fewer_clients(entries[x], entries[list[at - 1]]),
    ensures
        put_by_clients(entries, list, x) == list.insert(at, x),
    decreases list.len(),
{
    if at == list.len() {
        assert(list.insert(at, x) =~= list.push(x));
        if list.len() == 0 {
            assert(list.push(x) =~= seq![x]);
        }
    } else {
        let front = list.drop_last();
        assert(fewer_clients(entries[x], entries[list[list.len() - 1]]));
        assert forall|k: int| at <= k < front.len() implies fewer_clients(
            entries[x],
            entries[#[trigger] front[k]],
        ) by {
            assert(list[k] == front[k]);
        }
        lemma_clients_place(entries, front, x, at);
        assert(list.insert(at, x) =~= front.insert(at, x).push(list.last()));
    }
}

/// The marked searches by ascending number of clients.
fn sort_by_clients(entries: &[SearchEntry], marks: &Vec<bool>) -> (r: Vec<usize>)
    requires
        marks@.len() == entries@.len(),
    ensures
        places(r@) == by_clients(entries@, marks@, entries@.len() as int),
        forall|i: int| 0 <= i < r@.len() ==> (#[trigger] r@[i]) < entries@.len(),
{
    let mut r: Vec<usize> = Vec::new();
    let mut i: usize = 0;
    assert(places(r@) =~= Seq::empty());
    while i < entries.len()
        invariant
            i <= entries@.len(),
            marks@.len() == entries@.len(),
            places(r@) == by_clients(entries@, marks@, i as int),
            forall|j: int| 0 <= j < r@.len() ==> (#[trigger] r@[j]) < entries@.len(),
        decreases entries@.len() - i,
    {
        if marks[i] {
            let ghost list = places(r@);
            let mut at: usize = r.len();
            while at > 0 && entries[i].parallel < entries[r[at - 1]].parallel
                invariant
                    at <= r@.len(),
                    i < entries@.len(),
                    list == places(r@),
                    forall|j: int| 0 <= j < r@.len() ==> (#[trigger] r@[j]) < entries@.len(),
                    forall|k: int|
                        at <= k < list.len() ==> fewer_clients(
                            entries@[i as int],
                            entries@[#[trigger] list[k]],
                        ),
                decreases at,
            {
                assert(list[at - 1] == r@[at - 1]);
                at -= 1;
            }
            proof {
                if at > 0 {
                    assert(list[at - 1] == r@[at - 1]);
                }
                lemma_clients_place(entries@, list, i as int, at as int);
            }
            r.insert(at, i);
            assert(places(r@) =~= list.insert(at as int, i as int));
        }
        i += 1;
    }
    r
}

/// Of each search, whether the client held it back.
pub open spec fn saturation_marks(entries: Seq<SearchEntry>) -> Seq<bool> {
    Seq::new(entries.len(), |i: int| entries[i].results.client_saturated)
}

/// Of each search, whether it has a breadth.
pub open spec fn ef_marks(entries: Seq<SearchEntry>, ef: Seq<char>) -> Seq<bool> {
    Seq::new(entries.len(), |i: int| entries[i].ef@ == ef)
}

/// Whether more clients may not have paid off from one search to the next: there are more, there was a
/// rate and a latency to compare with, and the latency rose.
pub open spec fn may_saturate(a: SearchEntry, b: SearchEntry) -> bool {
    &&& a.parallel < b.parallel
    &&& float_bits::less64(0, a.results.rps_bits)
    &&& float_bits::less64(0, a.results.p95_bits)
    &&& float_bits::less64(a.results.p95_bits, b.results.p95_bits)
}

/// The neighbours among the first `n` of a list of which that holds.
pub open spec fn saturating(entries: Seq<SearchEntry>, list: Seq<int>, n: int) -> Seq<(int, int)>
    decreases n,
{
    if n <= 1 {
        Seq::empty()
    } else if may_saturate(entries[list[n - 2]], entries[list[n - 1]]) {
        saturating(entries, list, n - 1).push((list[n - 2], list[n - 1]))
    } else {
        saturating(entries, list, n - 1)
    }
}

/// The pairs of searches to look at for the first `m` breadths.
pub open spec fn pairs_of(entries: Seq<SearchEntry>, efs: Seq<Seq<char>>, m: int) -> Seq<(int, int)>
    decreases m,
{
    if m <= 0 {
        Seq::empty()
    } else {
        let list = by_clients(entries, ef_marks(entries, efs[m - 1]), entries.len() as int);
        pairs_of(entries, efs, m - 1) + saturating(entries, list, list.len() as int)
    }
}

/// The breadths of all searches.
pub open spec fn ef_texts(entries: Seq<SearchEntry>) -> Seq<Seq<char>> {
    Seq::new(entries.len(), |i: int| entries[i].ef@)
}

/// The pairs of searches to look at.
pub open spec fn all_pairs(entries: Seq<SearchEntry>) -> Seq<(int, int)> {
    let efs = sorted_texts::distinct(ef_texts(entries), entries.len() as int);
    pairs_of(entries, efs, efs.len() as int)
}

/// Pairs of places as mathematical integers.
pub open spec fn pair_places(s: Seq<(usize, usize)>) -> Seq<(int, int)> {
    Seq::new(s.len(), |i: int| (s[i].0 as int, s[i].1 as int))
}

/// The pairs of searches at one breadth, each with the next higher number of clients, between which the
/// latency rose. Of these is to be found out how much of the rate was gained.
pub fn scaling_pairs(entries: &[SearchEntry]) -> (r: Vec<(usize, usize)>)
    ensures
        pair_places(r@) == all_pairs(entries@),
        forall|i: int|
            0 <= i < r@.len() ==> (#[trigger] r@[i]).0 < entries@.len() && r@[i].1 < entries@.len(),
{
    let mut efs: Vec<String> = Vec::new();
    let mut i: usize = 0;
    let ghost texts = ef_texts(entries@);
    assert(text::texts_view(efs@) =~= Seq::empty());
    while i < entries.len()
        invariant
            i <= entries@.len(),
            texts == ef_texts(entries@),
            text::texts_view(efs@) == sorted_texts::distinct(texts, i as int),
        decreases entries@.len() - i,
    {
        put_text(&mut efs, entries[i].ef.as_str());
        i += 1;
    }
    let ghost views = text::texts_view(efs@);
    let mut r: Vec<(usize, usize)> = Vec::new();
    let mut m: usize = 0;
    assert(pair_places(r@) =~= Seq::empty());
    while m < efs.len()
        invariant
            m <= efs@.len(),
            views == text::texts_view(efs@),
            pair_places(r@) == pairs_of(entries@, views, m as int),
            forall|j: int|
                0 <= j < r@.len() ==> (#[trigger] r@[j]).0 < entries@.len() && r@[j].1
                    < entries@.len(),
        decreases efs@.len() - m,
    {
        let ef: &str = efs[m].as_str();
        let mut marks: Vec<bool> = Vec::new();
        let mut j: usize = 0;
        while j < entries.len()
            invariant
                j <= entries@.len(),
                marks@.len() == j,
                forall|k: int| 0 <= k < j ==> #[trigger] marks@[k] == ef_marks(entries@, ef@)[k],
            decreases entries@.len() - j,
        {
            marks.push(same_text(entries[j].ef.as_str(), ef));
            j += 1;
        }
        assert(marks@ =~= ef_marks(entries@, ef@));
        assert(views[m as int] == ef@);
        let list: Vec<usize> = sort_by_clients(entries, &marks);
        let ghost list_view = places(list@);
        let ghost before = pair_places(r@);
        let mut k: usize = 1;
        assert(before + Seq::<(int, int)>::empty() =~= before);
        while k < list.len()
            invariant
                1 <= k,
                k <= list@.len() || k == 1,
                list_view == places(list@),
                forall|x: int| 0 <= x < list@.len() ==> (#[trigger] list@[x]) < entries@.len(),
                pair_places(r@) == before + saturating(entries@, list_view, k as int),
                forall|x: int|
                    0 <= x < r@.len() ==> (#[trigger] r@[x]).0 < entries@.len() && r@[x].1
                        < entries@.len(),
            decreases list@.len() - k,
        {
            let a: usize = list[k - 1];
            let b: usize = list[k];
            assert(list_view[k - 1] == a && list_view[k as int] == b);
            let ghost sofar = saturating(entries@, list_view, k as int);
            if entries[a].parallel < entries[b].parallel && below64(0, entries[a].results.rps_bits)
                && below64(0, entries[a].results.p95_bits) && below64(
                entries[a].results.p95_bits,
                entries[b].results.p95_bits,
            ) {
                let ghost was = pair_places(r@);
                r.push((a, b));
                assert(pair_places(r@) =~= was.push((a as int, b as int)));
                assert(pair_places(r@) =~= before + sofar.push((a as int, b as int)));
            }
            k += 1;
        }
        assert(saturating(entries@, list_view, k as int) == saturating(
            entries@,
            list_view,
            list_view.len() as int,
        ));
        m += 1;
    }
    r
}

/// What is said of a search that the client held back.
pub open spec fn held_back_line(ef: Seq<char>, parallel: int, reason: Seq<char>) -> Seq<char> {
    "client-saturated: ef="@
        + ef
        + " parallel="@
        + text::signed_decimal(parallel)
        + " ("@
        + reason
        + ") — QPS/latency reflect the client, not the DB"@
}

/// What is said of a search that the client held back.
fn new_held_back_line(ef: &str, parallel: i64, reason: &str) -> (m: String)
    ensures
        m@ == held_back_line(ef@, parallel as int, reason@),
{
    let mut m: String = "client-saturated: ef=".to_owned();
    m.append(ef);
    m.append(" parallel=");
    m.append(signed_decimal_text(parallel).as_str());
    m.append(" (");
    m.append(reason);
    m.append(") — QPS/latency reflect the client, not the DB");
    m
}

/// What is said of clients that did not pay off.
pub open spec fn scaling_line(ef: Seq<char>, fewer: int, more: int, gain: Seq<char>, rise: Seq<char>) -> Seq<char> {
    "throughput saturated: ef="@
        + ef
        + " parallel "@
        + text::signed_decimal(fewer)
        + "→"@
        + text::signed_decimal(more)
        + " gained only "@
        + gain
        + "% QPS while p95 rose "@
        + rise
        + "% — higher concurrency is not paying off"@
}

/// What is said of clients that did not pay off.
fn new_scaling_line(ef: &str, fewer: i64, more: i64, gain: &str, rise: &str) -> (m: String)
    ensures
        m@ == scaling_line(ef@, fewer as int, more as int, gain@, rise@),
{
    let mut m: String = "throughput saturated: ef=".to_owned();
    m.append(ef);
    m.append(" parallel ");
    m.append(signed_decimal_text(fewer).as_str());
    m.append("→");
    m.append(signed_decimal_text(more).as_str());
    m.append(" gained only ");
    m.append(gain);
    m.append("% QPS while p95 rose ");
    m.append(rise);
    m.append("% — higher concurrency is not paying off");
    m
}

/// What came of a pair of searches: whether less than a tenth of the rate was gained, and the gain of the
/// rate and the rise of the latency in percent.
pub struct Gain {
    pub is_small: bool,
    pub gain_shown: String,
    pub rise_shown: String,
}

/// What is said of the searches that the client held back.
pub open spec fn held_back_lines(entries: Seq<SearchEntry>, list: Seq<int>, n: int) -> Seq<Seq<char>>
    decreases n,
{
    if n <= 0 {
        Seq::empty()
    } else {
        let e = entries[list[n - 1]];
        held_back_lines(entries, list, n - 1).push(
            held_back_line(e.ef@, e.parallel as int, e.results.saturation_reason@),
        )
    }
}

/// What is said of the first `n` pairs.
pub open spec fn scaling_lines(
    entries: Seq<SearchEntry>,
    pairs: Seq<(int, int)>,
    gains: Seq<Gain>,
    n: int,
) -> Seq<Seq<char>>
    decreases n,
{
    if n <= 0 {
        Seq::empty()
    } else if gains[n - 1].is_small {
        let (a, b) = pairs[n - 1];
        scaling_lines(entries, pairs, gains, n - 1).push(
            scaling_line(
                entries[a].ef@,
                entries[a].parallel as int,
                entries[b].parallel as int,
                gains[n - 1].gain_shown@,
                gains[n - 1].rise_shown@,
            ),
        )
    } else {
        scaling_lines(entries, pairs, gains, n - 1)
    }
}

/// What is warned of: the searches that the client held back, by ascending number of clients, and the
/// steps at which more clients did not pay off.
pub open spec fn warnings(entries: Seq<SearchEntry>, gains: Seq<Gain>) -> Seq<Seq<char>> {
    let held = by_clients(entries, saturation_marks(entries), entries.len() as int);
    let pairs = all_pairs(entries);
    held_back_lines(entries, held, held.len() as int) + scaling_lines(
        entries,
        pairs,
        gains,
        pairs.len() as int,
    )
}

/// What is warned of: the searches that the client held back, by ascending number of clients, and the
/// steps at which more clients did not pay off. `gains` says what came of each pair to look at.
pub fn saturation_warnings(entries: &[SearchEntry], gains: &[Gain]) -> (r: Vec<String>)
    requires
        gains@.len() == all_pairs(entries@).len(),
    ensures
        text::texts_view(r@) == warnings(entries@, gains@),
{
    let mut marks: Vec<bool> = Vec::new();
    let mut i: usize = 0;
    while i < entries.len()
        invariant
            i <= entries@.len(),
            marks@.len() == i,
            forall|k: int| 0 <= k < i ==> #[trigger] marks@[k] == saturation_marks(entries@)[k],
        decreases entries@.len() - i,
    {
        marks.push(entries[i].results.client_saturated);
        i += 1;
    }
    assert(marks@ =~= saturation_marks(entries@));
    let held: Vec<usize> = sort_by_clients(entries, &marks);
    let ghost held_view = places(held@);
    let mut r: Vec<String> = Vec::new();
    let mut k: usize = 0;
    assert(text::texts_view(r@) =~= Seq::empty());
    while k < held.len()
        invariant
            k <= held@.len(),
            held_view == places(held@),
            forall|j: int| 0 <= j < held@.len() ==> (#[trigger] held@[j]) < entries@.len(),
            text::texts_view(r@) == held_back_lines(entries@, held_view, k as int),
        decreases held@.len() - k,
    {
        assert(held_view[k as int] == held@[k as int]);
        let e: &SearchEntry = &entries[held[k]];
        let line: String = new_held_back_line(
            e.ef.as_str(),
            e.parallel,
            e.results.saturation_reason.as_str(),
        );
        let ghost before = text::texts_view(r@);
        r.push(line);
        assert(text::texts_view(r@) =~= before.push(line@));
        k += 1;
    }
    let ghost first = text::texts_view(r@);
    let pairs: Vec<(usize, usize)> = scaling_pairs(entries);
    let ghost pair_view = pair_places(pairs@);
    let mut m: usize = 0;
    assert(first + Seq::<Seq<char>>::empty() =~= first);
    while m < pairs.len()
        invariant
            m <= pairs@.len(),
            pair_view == pair_places(pairs@),
            gains@.len() == pairs@.len(),
            forall|j: int|
                0 <= j < pairs@.len() ==> (#[trigger] pairs@[j]).0 < entries@.len() && pairs@[j].1
                    < entries@.len(),
            text::texts_view(r@) == first + scaling_lines(entries@, pair_view, gains@, m as int),
        decreases pairs@.len() - m,
    {
        let (a, b): (usize, usize) = pairs[m];
        assert(pair_view[m as int] == (a as int, b as int));
        if gains[m].is_small {
            let line: String = new_scaling_line(
                entries[a].ef.as_str(),
                entries[a].parallel,
                entries[b].parallel,
                gains[m].gain_shown.as_str(),
                gains[m].rise_shown.as_str(),
            );
            let ghost sofar = scaling_lines(entries@, pair_view, gains@, m as int);
            let ghost was = text::texts_view(r@);
            r.push(line);
            assert(text::texts_view(r@) =~= was.push(line@));
            assert(text::texts_view(r@) =~= first + sofar.push(line@));
        }
        m += 1;
    }
    r
}

/// The text that tells a ratio of updates to searches; a search without updates has one of its own.
pub open spec fn ratio_label(e: SearchEntry) -> Seq<char> {
    match e.results.update_search_ratio {
        Some(r) => r@,
        None => "search"@,
    }
}

/// The labels of all searches.
pub open spec fn label_texts(entries: Seq<SearchEntry>) -> Seq<Seq<char>> {
    Seq::new(entries.len(), |i: int| ratio_label(entries[i]))
}

/// The label of a search.
fn label_of(e: &SearchEntry) -> (r: String)
    ensures
        r@ == ratio_label(*e),
{
    match &e.results.update_search_ratio {
        Some(r) => r.clone(),
        None => "search".to_owned(),
    }
}

/// The labels that occur, ascending, each once.
pub fn ratio_labels(entries: &[SearchEntry]) -> (r: Vec<String>)
    ensures
        text::texts_view(r@) == sorted_texts::distinct(
            label_texts(entries@),
            entries@.len() as int,
        ),
{
    let mut r: Vec<String> = Vec::new();
    let mut i: usize = 0;
    let ghost texts = label_texts(entries@);
    assert(text::texts_view(r@) =~= Seq::empty());
    while i < entries.len()
        invariant
            i <= entries@.len(),
            texts == label_texts(entries@),
            text::texts_view(r@) == sorted_texts::distinct(texts, i as int),
        decreases entries@.len() - i,
    {
        put_text(&mut r, label_of(&entries[i]).as_str());
        i += 1;
    }
    r
}

/// The last of the first `n` searches with a label whose rate is not below that of another.
pub open spec fn fastest_of(entries: Seq<SearchEntry>, label: Seq<char>, n: int) -> Option<int>
    decreases n,
{
    if n <= 0 {
        None
    } else {
        let before = fastest_of(entries, label, n - 1);
        if ratio_label(entries[n - 1]) != label {
            before
        } else {
            match before {
                None => Some(n - 1),
                Some(b) => if float_bits::less64(
                    entries[n - 1].results.rps_bits,
                    entries[b].results.rps_bits,
                ) {
                    Some(b)
                } else {
                    Some(n - 1)
                },
            }
        }
    }
}

/// The fastest search with a label; the last of several that are as fast.
pub fn fastest_with_label(entries: &[SearchEntry], label: &str) -> (r: Option<usize>)
    requires
        forall|i: int, j: int|
            0 <= i < entries@.len() && 0 <= j < entries@.len() && i != j && ratio_label(
                #[trigger] entries@[i],
            ) == label@ && ratio_label(#[trigger] entries@[j]) == label@ ==> !float_bits::is_nan64(
                entries@[i].results.rps_bits,
            ),
    ensures
        place_of(r) == fastest_of(entries@, label@, entries@.len() as int),
        r matches Some(b) ==> b < entries@.len(),
{
    let mut best: Option<usize> = None;
    let mut i: usize = 0;
    while i < entries.len()
        invariant
            i <= entries@.len(),
            place_of(best) == fastest_of(entries@, label@, i as int),
            best matches Some(b) ==> b < entries@.len(),
        decreases entries@.len() - i,
    {
        if same_text(label_of(&entries[i]).as_str(), label) {
            match best {
                None => {
                    best = Some(i);
                },
                Some(b) => {
                    if !below64(entries[i].results.rps_bits, entries[b].results.rps_bits) {
                        best = Some(i);
                    }
                },
            }
        }
        i += 1;
    }
    best
}

/// An ascending list with `x` behind all whose key is not larger.
pub open spec fn put_by_key(keys: Seq<u64>, list: Seq<int>, x: int) -> Seq<int>
    decreases list.len(),
{
    if list.len() == 0 {
        seq![x]
    } else if float_bits::less64(keys[x], keys[list.last()]) {
        put_by_key(keys, list.drop_last(), x).push(list.last())
    } else {
        list.push(x)
    }
}

/// The first `n` places by ascending key; equal ones in their order.
pub open spec fn by_key(keys: Seq<u64>, n: int) -> Seq<int>
    decreases n,
{
    if n <= 0 {
        Seq::empty()
    } else {
        put_by_key(keys, by_key(keys, n - 1), n - 1)
    }
}

/// Where a place is put.
proof fn lemma_key_place(keys: Seq<u64>, list: Seq<int>, x: int, at: int)
    requires
        0 <= at <= list.len(),
        forall|k: int| at <= k < list.len() ==> float_bits::less64(keys[x], keys[#[trigger] list[k]]),
        at > 0 ==> !float_bits::less64(keys[x], keys[list[at - 1]]),
    ensures
        put_by_key(keys, list, x) == list.insert(at, x),
    decreases list.len(),
{
    if at == list.len() {
        assert(list.insert(at, x) =~= list.push(x));
        if list.len() == 0 {
            assert(list.push(x) =~= seq![x]);
        }
    } else {
        let front = list.drop_last();
        assert(float_bits::less64(keys[x], keys[list[list.len() - 1]]));
        assert forall|k: int| at <= k < front.len() implies float_bits::less64(
            keys[x],
            keys[#[trigger] front[k]],
        ) by {
            assert(list[k] == front[k]);
        }
        lemma_key_place(keys, front, x, at);
        assert(list.insert(at, x) =~= front.insert(at, x).push(list.last()));
    }
}

/// The places of keys by ascending key, given as bit patterns; equal ones in their order.
pub fn order_by_key(keys: &[u64]) -> (r: Vec<usize>)
    requires
        keys@.len() > 1 ==> forall|i: int|
            0 <= i < keys@.len() ==> !float_bits::is_nan64(#[trigger] keys@[i]),
    ensures
        places(r@) == by_key(keys@, keys@.len() as int),
        forall|i: int| 0 <= i < r@.len() ==> (#[trigger] r@[i]) < keys@.len(),
{
    let mut r: Vec<usize> = Vec::new();
    let mut i: usize = 0;
    assert(places(r@) =~= Seq::empty());
    while i < keys.len()
        invariant
            i <= keys@.len(),
            places(r@) == by_key(keys@, i as int),
            forall|j: int| 0 <= j < r@.len() ==> (#[trigger] r@[j]) < keys@.len(),
        decreases keys@.len() - i,
    {
        let ghost list = places(r@);
        let mut at: usize = r.len();
        while at > 0 && below64(keys[i], keys[r[at - 1]])
            invariant
                at <= r@.len(),
                i < keys@.len(),
                list == places(r@),
                forall|j: int| 0 <= j < r@.len() ==> (#[trigger] r@[j]) < keys@.len(),
                forall|k: int|
                    at <= k < list.len() ==> float_bits::less64(
                        keys@[i as int],
                        keys@[#[trigger] list[k]],
                    ),
            decreases at,
        {
            assert(list[at - 1] == r@[at - 1]);
            at -= 1;
        }
        proof {
            if at > 0 {
                assert(list[at - 1] == r@[at - 1]);
            }
            lemma_key_place(keys@, list, i as int, at as int);
        }
        r.insert(at, i);
        assert(places(r@) =~= list.insert(at as int, i as int));
        i += 1;
    }
    r
}

/// Whether the calibration of a search did not meet its target.
pub open spec fn missed_its_target(e: SearchEntry) -> bool {
    e.calibration matches Some(c) && c@.member("reached_target"@) == Some(JsonView::Bool(false))
}

/// The places below `n` of the searches whose calibration did not meet its target.
pub open spec fn missed_places(entries: Seq<SearchEntry>, n: int) -> Seq<int>
    decreases n,
{
    if n <= 0 {
        Seq::empty()
    } else if missed_its_target(entries[n - 1]) {
        missed_places(entries, n - 1).push(n - 1)
    } else {
        missed_places(entries, n - 1)
    }
}

/// The searches whose calibration did not meet its target.
pub fn uncalibrated(entries: &[SearchEntry]) -> (r: Vec<usize>)
    ensures
        places(r@) == missed_places(entries@, entries@.len() as int),
{
    let mut r: Vec<usize> = Vec::new();
    let mut i: usize = 0;
    assert(places(r@) =~= Seq::empty());
    while i < entries.len()
        invariant
            i <= entries@.len(),
            places(r@) == missed_places(entries@, i as int),
        decreases entries@.len() - i,
    {
        let ghost before = places(r@);
        let mut missed: bool = false;
        if let Some(c) = &entries[i].calibration {
            if let Some(v) = c.get("reached_target") {
                if let Some(b) = v.as_bool() {
                    missed = !b;
                }
            }
        }
        if missed {
            r.push(i);
            assert(places(r@) =~= before.push(i as int));
        }
        i += 1;
    }
    r
}

/// The numbers of a search as a summary writes them: rounded, as JSON numbers.
pub struct RoundedNumbers {
    pub qps: Json,
    pub p50_ms: Json,
    pub p95_ms: Json,
    pub p99_ms: Json,
    pub recall: Json,
    pub mrr: Json,
    pub ndcg: Json,
}

/// One search in a summary.
pub open spec fn entry_document(e: SearchEntry) -> JsonView {
    let m = json::put(json::no_members(), "search_id"@, json::count_view(e.search_id as u64));
    let m = json::put(m, "ef"@, JsonView::Text(e.ef@));
    let m = json::put(m, "parallel"@, json::int_view(e.parallel));
    let m = json::put(m, "mean_precision_at_returned"@, e.results.mean_precision_at_returned@);
    let m = json::put(m, "mean_recall"@, e.results.mean_recall@);
    let m = json::put(m, "recall_p10"@, e.results.recall_p10@);
    let m = json::put(m, "mean_mrr"@, e.results.mean_mrr@);
    let m = json::put(m, "mean_ndcg"@, e.results.mean_ndcg@);
    let m = json::put(m, "rps"@, e.results.rps@);
    let m = json::put(m, "mean_time"@, e.results.mean_time@);
    let m = json::put(m, "p50_time"@, e.results.p50_time@);
    let m = json::put(m, "p95_time"@, e.results.p95_time@);
    let m = json::put(m, "p99_time"@, e.results.p99_time@);
    let m = json::put(m, "client_saturated"@, JsonView::Bool(e.results.client_saturated));
    let m = json::put(m, "saturation_reason"@, JsonView::Text(e.results.saturation_reason@));
    let m = json::put(m, "oversubscribed"@, JsonView::Bool(e.results.oversubscribed));
    let m = json::put(m, "available_cores"@, json::count_view(e.results.available_cores));
    JsonView::Object(json::put(m, "client_cpu_cores_used"@, e.results.client_cpu_cores_used@))
}

/// One search in a summary.
fn new_entry_document(e: &SearchEntry) -> (r: Json)
    ensures
        r@ == entry_document(*e),
{
    broadcast use json::lemma_object_view;

    let mut members: Vec<(String, Json)> = new_members();
    put_member(&mut members, "search_id", count_value(e.search_id as u64));
    put_member(&mut members, "ef", text_value(e.ef.as_str()));
    put_member(&mut members, "parallel", int_value(e.parallel));
    put_member(&mut members, "mean_precision_at_returned", e.results.mean_precision_at_returned.clone());
    put_member(&mut members, "mean_recall", e.results.mean_recall.clone());
    put_member(&mut members, "recall_p10", e.results.recall_p10.clone());
    put_member(&mut members, "mean_mrr", e.results.mean_mrr.clone());
    put_member(&mut members, "mean_ndcg", e.results.mean_ndcg.clone());
    put_member(&mut members, "rps", e.results.rps.clone());
    put_member(&mut members, "mean_time", e.results.mean_time.clone());
    put_member(&mut members, "p50_time", e.results.p50_time.clone());
    put_member(&mut members, "p95_time", e.results.p95_time.clone());
    put_member(&mut members, "p99_time", e.results.p99_time.clone());
    put_member(&mut members, "client_saturated", Json::Bool(e.results.client_saturated));
    put_member(&mut members, "saturation_reason", text_value(e.results.saturation_reason.as_str()));
    put_member(&mut members, "oversubscribed", Json::Bool(e.results.oversubscribed));
    put_member(&mut members, "available_cores", count_value(e.results.available_cores));
    put_member(&mut members, "client_cpu_cores_used", e.results.client_cpu_cores_used.clone());
    Json::Object(members)
}

/// What a summary says of one precision.
pub open spec fn precision_document(n: RoundedNumbers) -> JsonView {
    let m = json::put(json::no_members(), "QPS"@, n.qps@);
    let m = json::put(m, "P50 (ms)"@, n.p50_ms@);
    let m = json::put(m, "P95 (ms)"@, n.p95_ms@);
    let m = json::put(m, "recall"@, n.recall@);
    let m = json::put(m, "mrr"@, n.mrr@);
    JsonView::Object(json::put(m, "ndcg"@, n.ndcg@))
}

/// What a summary says of one precision.
fn new_precision_document(n: &RoundedNumbers) -> (r: Json)
    ensures
        r@ == precision_document(*n),
{
    broadcast use json::lemma_object_view;

    let mut members: Vec<(String, Json)> = new_members();
    put_member(&mut members, "QPS", n.qps.clone());
    put_member(&mut members, "P50 (ms)", n.p50_ms.clone());
    put_member(&mut members, "P95 (ms)", n.p95_ms.clone());
    put_member(&mut members, "recall", n.recall.clone());
    put_member(&mut members, "mrr", n.mrr.clone());
    put_member(&mut members, "ndcg", n.ndcg.clone());
    Json::Object(members)
}

/// What a summary says of the first `n` precisions.
pub open spec fn precision_members(
    keys: Seq<Seq<char>>,
    numbers: Seq<RoundedNumbers>,
    best: Seq<int>,
    n: int,
) -> Seq<(Seq<char>, JsonView)>
    decreases n,
{
    if n <= 0 {
        json::no_members()
    } else {
        json::put(
            precision_members(keys, numbers, best, n - 1),
            keys[best[n - 1]],
            precision_document(numbers[best[n - 1]]),
        )
    }
}

/// One point of a curve in a summary.
pub open spec fn point_document(e: SearchEntry, n: RoundedNumbers) -> JsonView {
    let m = json::put(json::no_members(), "parallel"@, json::int_view(e.parallel));
    let m = json::put(m, "qps"@, n.qps@);
    let m = json::put(m, "p50_ms"@, n.p50_ms@);
    let m = json::put(m, "p95_ms"@, n.p95_ms@);
    let m = json::put(m, "p99_ms"@, n.p99_ms@);
    let m = json::put(m, "recall"@, n.recall@);
    JsonView::Object(
        json::put(m, "client_saturated"@, JsonView::Bool(e.results.client_saturated)),
    )
}

/// One point of a curve in a summary.
fn new_point_document(e: &SearchEntry, n: &RoundedNumbers) -> (r: Json)
    ensures
        r@ == point_document(*e, *n),
{
    broadcast use json::lemma_object_view;

    let mut members: Vec<(String, Json)> = new_members();
    put_member(&mut members, "parallel", int_value(e.parallel));
    put_member(&mut members, "qps", n.qps.clone());
    put_member(&mut members, "p50_ms", n.p50_ms.clone());
    put_member(&mut members, "p95_ms", n.p95_ms.clone());
    put_member(&mut members, "p99_ms", n.p99_ms.clone());
    put_member(&mut members, "recall", n.recall.clone());
    put_member(&mut members, "client_saturated", Json::Bool(e.results.client_saturated));
    Json::Object(members)
}

/// A number or null.
pub open spec fn optional_int(n: Option<i64>) -> JsonView {
    match n {
        Some(x) => json::int_view(x),
        None => JsonView::Null,
    }
}

/// A curve in a summary. A peak that is no number is written as null.
pub open spec fn curve_document(
    entries: Seq<SearchEntry>,
    numbers: Seq<RoundedNumbers>,
    c: CurveView,
) -> JsonView {
    let m = json::put(json::no_members(), "ef"@, JsonView::Text(c.ef));
    let m = json::put(
        m,
        "max_qps"@,
        match c.peak {
            Some(b) => numbers[b].qps@,
            None => JsonView::Null,
        },
    );
    let m = json::put(m, "max_qps_parallel"@, json::int_view(c.max_qps_parallel));
    let m = json::put(m, "knee_parallel"@, optional_int(c.knee_parallel));
    JsonView::Object(
        json::put(
            m,
            "points"@,
            JsonView::Array(
                Seq::new(
                    c.points.len(),
                    |i: int| point_document(entries[c.points[i]], numbers[c.points[i]]),
                ),
            ),
        ),
    )
}

/// A curve in a summary.
fn new_curve_document(entries: &[SearchEntry], numbers: &[RoundedNumbers], c: &ConcurrencyCurve) -> (r:
    Json)
    requires
        numbers@.len() == entries@.len(),
        points_into(*c, entries@.len() as int),
    ensures
        r@ == curve_document(entries@, numbers@, c@),
{
    broadcast use {json::lemma_object_view, json::lemma_array_view};

    let mut points: Vec<Json> = Vec::new();
    let mut i: usize = 0;
    while i < c.points.len()
        invariant
            i <= c.points@.len(),
            points@.len() == i,
            numbers@.len() == entries@.len(),
            forall|j: int| 0 <= j < c.points@.len() ==> (#[trigger] c.points@[j]) < entries@.len(),
            forall|j: int|
                0 <= j < i ==> (#[trigger] points@[j])@ == point_document(
                    entries@[c.points@[j] as int],
                    numbers@[c.points@[j] as int],
                ),
        decreases c.points@.len() - i,
    {
        let p: usize = c.points[i];
        points.push(new_point_document(&entries[p], &numbers[p]));
        i += 1;
    }
    assert(json::items_view(points@) =~= Seq::new(
        c@.points.len(),
        |j: int| point_document(entries@[c@.points[j]], numbers@[c@.points[j]]),
    ));
    let most: Json = match c.peak {
        Some(b) => numbers[b].qps.clone(),
        None => Json::Null,
    };
    let knee: Json = match c.knee_parallel {
        Some(x) => int_value(x),
        None => Json::Null,
    };
    let mut members: Vec<(String, Json)> = new_members();
    put_member(&mut members, "ef", text_value(c.ef.as_str()));
    put_member(&mut members, "max_qps", most);
    put_member(&mut members, "max_qps_parallel", int_value(c.max_qps_parallel));
    put_member(&mut members, "knee_parallel", knee);
    put_member(&mut members, "points", Json::Array(points));
    Json::Object(members)
}

/// The searches of a summary.
pub open spec fn entry_documents(entries: Seq<SearchEntry>) -> Seq<JsonView> {
    Seq::new(entries.len(), |i: int| entry_document(entries[i]))
}

/// The summary of an experiment.
pub open spec fn summary_document(
    engine: Seq<char>,
    dataset: Seq<char>,
    entries: Seq<SearchEntry>,
    keys: Seq<Seq<char>>,
    numbers: Seq<RoundedNumbers>,
    upload: Option<JsonView>,
) -> JsonView {
    let best = precision_summary(entries, keys);
    let curves = all_curves(entries);
    let m = json::put(json::no_members(), "engine"@, JsonView::Text(engine));
    let m = json::put(m, "dataset"@, JsonView::Text(dataset));
    let m = json::put(m, "search_results"@, JsonView::Array(entry_documents(entries)));
    let m = json::put(
        m,
        "precision_summary"@,
        JsonView::Object(precision_members(keys, numbers, best, best.len() as int)),
    );
    let m = json::put(
        m,
        "concurrency_curve"@,
        JsonView::Array(
            Seq::new(curves.len(), |i: int| curve_document(entries, numbers, curves[i])),
        ),
    );
    JsonView::Object(results::put_some(m, "upload"@, upload))
}

/// The summary of an experiment. `keys` and `numbers` hold of each search the text that its precision is
/// rounded to and its rounded numbers.
pub fn build_summary_json(
    engine_name: &str,
    dataset_name: &str,
    entries: &[SearchEntry],
    keys: &[String],
    numbers: &[RoundedNumbers],
    upload: Option<&Json>,
) -> (r: Json)
    requires
        keys@.len() == entries@.len(),
        numbers@.len() == entries@.len(),
        precisions_compare(entries@, text::texts_view(keys@)),
    ensures
        r@ == summary_document(
            engine_name@,
            dataset_name@,
            entries@,
            text::texts_view(keys@),
            numbers@,
            results::some_ref_view(upload),
        ),
{
    broadcast use {json::lemma_object_view, json::lemma_array_view};

    let ghost key_views = text::texts_view(keys@);
    let best: Vec<usize> = analyze_precision_performance(entries, keys);
    let ghost best_view = places(best@);
    let mut precisions: Vec<(String, Json)> = new_members();
    let mut k: usize = 0;
    while k < best.len()
        invariant
            k <= best@.len(),
            best_view == places(best@),
            key_views == text::texts_view(keys@),
            keys@.len() == entries@.len(),
            numbers@.len() == entries@.len(),
            forall|i: int| 0 <= i < best@.len() ==> (#[trigger] best@[i]) < entries@.len(),
            json::members_view(precisions@) == precision_members(
                key_views,
                numbers@,
                best_view,
                k as int,
            ),
        decreases best@.len() - k,
    {
        let b: usize = best[k];
        assert(best_view[k as int] == b);
        put_member(&mut precisions, keys[b].as_str(), new_precision_document(&numbers[b]));
        k += 1;
    }
    let mut searches: Vec<Json> = Vec::new();
    let mut i: usize = 0;
    while i < entries.len()
        invariant
            i <= entries@.len(),
            searches@.len() == i,
            forall|j: int| 0 <= j < i ==> (#[trigger] searches@[j])@ == entry_document(entries@[j]),
        decreases entries@.len() - i,
    {
        searches.push(new_entry_document(&entries[i]));
        i += 1;
    }
    assert(json::items_view(searches@) =~= entry_documents(entries@));
    let curves: Vec<ConcurrencyCurve> = concurrency_curves(entries);
    let mut drawn: Vec<Json> = Vec::new();
    let mut c: usize = 0;
    while c < curves.len()
        invariant
            c <= curves@.len(),
            drawn@.len() == c,
            numbers@.len() == entries@.len(),
            forall|x: int|
                0 <= x < curves@.len() ==> points_into(
                    #[trigger] curves@[x],
                    entries@.len() as int,
                ),
            forall|j: int|
                0 <= j < c ==> (#[trigger] drawn@[j])@ == curve_document(
                    entries@,
                    numbers@,
                    curves@[j]@,
                ),
        decreases curves@.len() - c,
    {
        drawn.push(new_curve_document(entries, numbers, &curves[c]));
        c += 1;
    }
    proof {
        let views = all_curves(entries@);
        assert forall|j: int| 0 <= j < views.len() implies views[j] == (#[trigger] curves@[j])@ by {
            assert(curve_views(curves@)[j] == curves@[j]@);
        }
        assert(json::items_view(drawn@) =~= Seq::new(
            views.len(),
            |j: int| curve_document(entries@, numbers@, views[j]),
        ));
    }
    let mut members: Vec<(String, Json)> = new_members();
    put_member(&mut members, "engine", text_value(engine_name));
    put_member(&mut members, "dataset", text_value(dataset_name));
    put_member(&mut members, "search_results", Json::Array(searches));
    put_member(&mut members, "precision_summary", Json::Object(precisions));
    put_member(&mut members, "concurrency_curve", Json::Array(drawn));
    if let Some(u) = upload {
        put_member(&mut members, "upload", u.clone());
    }
    Json::Object(members)
}

} // verus!
