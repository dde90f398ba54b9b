//! What the warnings of clients that do not pay off say of the searches, in whichever order these were made.
use vstd::prelude::*;

use crate::float_bits;
use crate::sorted_texts;
use crate::summary::{self, Gain, SearchEntry};
use crate::text;

verus! {

/// Whether no two searches at one breadth have the same number of clients.
pub open spec fn levels_differ(entries: Seq<SearchEntry>) -> bool {
    forall|i: int, j: int|
        0 <= i < entries.len() && 0 <= j < entries.len() && i != j && (#[trigger] entries[i]).ef@
            == (#[trigger] entries[j]).ef@ ==> entries[i].parallel != entries[j].parallel
}

/// Whether no two searches have the same number of clients.
pub open spec fn clients_differ(entries: Seq<SearchEntry>) -> bool {
    forall|i: int, j: int|
        0 <= i < entries.len() && 0 <= j < entries.len() && i != j ==> (
        #[trigger] entries[i]).parallel != (#[trigger] entries[j]).parallel
}

/// Whether search `b` is at the breadth of `a` and has the next higher number of clients.
pub open spec fn next_level(entries: Seq<SearchEntry>, a: int, b: int) -> bool {
    &&& 0 <= a < entries.len()
    &&& 0 <= b < entries.len()
    &&& entries[a].ef@ == entries[b].ef@
    &&& entries[a].parallel < entries[b].parallel
    &&& forall|c: int|
        0 <= c < entries.len() && (#[trigger] entries[c]).ef@ == entries[a].ef@
            ==> entries[c].parallel <= entries[a].parallel || entries[b].parallel
            <= entries[c].parallel
}

/// What came of each pair to look at, where that depends on the two searches.
pub open spec fn gains_of(
    entries: Seq<SearchEntry>,
    gain: spec_fn(SearchEntry, SearchEntry) -> Gain,
) -> Seq<Gain> {
    let pairs = summary::all_pairs(entries);
    Seq::new(pairs.len(), |k: int| gain(entries[pairs[k].0], entries[pairs[k].1]))
}

/// The first `n` pairs without those of which nothing is said.
pub open spec fn warned_steps(pairs: Seq<(int, int)>, gains: Seq<Gain>, n: int) -> Seq<(int, int)>
    decreases n,
{
    if n <= 0 {
        Seq::empty()
    } else if gains[n - 1].is_small {
        warned_steps(pairs, gains, n - 1).push(pairs[n - 1])
    } else {
        warned_steps(pairs, gains, n - 1)
    }
}

/// What is said of a step from one search to another.
pub open spec fn step_line(a: SearchEntry, b: SearchEntry, g: Gain) -> Seq<char> {
    summary::scaling_line(
        a.ef@,
        a.parallel as int,
        b.parallel as int,
        g.gain_shown@,
        g.rise_shown@,
    )
}

/// Whether places ascend by the number of clients.
spec fn ascend(entries: Seq<SearchEntry>, list: Seq<int>) -> bool {
    forall|j: int, k: int|
        0 <= j < k < list.len() ==> entries[#[trigger] list[j]].parallel <= entries[
            #[trigger] list[k]].parallel
}

/// Where a search is put among others that ascend.
proof fn lemma_put(entries: Seq<SearchEntry>, list: Seq<int>, x: int) -> (at: int)
    requires
        ascend(entries, list),
    ensures
        0 <= at <= list.len(),
        summary::put_by_clients(entries, list, x) == list.insert(at, x),
        forall|k: int|
            at <= k < list.len() ==> entries[x].parallel < entries[#[trigger] list[k]].parallel,
        forall|k: int|
            0 <= k < at ==> entries[#[trigger] list[k]].parallel <= entries[x].parallel,
    decreases list.len(),
{
    if list.len() == 0 {
        assert(list.insert(0, x) =~= seq![x]);
        0
    } else if summary::fewer_clients(entries[x], entries[list.last()]) {
        let front = list.drop_last();
        assert(ascend(entries, front)) by {
            assert forall|j: int, k: int| 0 <= j < k < front.len() implies entries[
                #[trigger] front[j]].parallel <= entries[#[trigger] front[k]].parallel by {
                assert(entries[list[j]].parallel <= entries[list[k]].parallel);
            }
        }
        let at = lemma_put(entries, front, x);
        assert(list.insert(at, x) =~= front.insert(at, x).push(list.last()));
        assert forall|k: int| at <= k < list.len() implies entries[x].parallel < entries[
            #[trigger] list[k]].parallel by {
            if k < front.len() {
                assert(front[k] == list[k]);
            }
        }
        assert forall|k: int| 0 <= k < at implies entries[#[trigger] list[k]].parallel
            <= entries[x].parallel by {
            assert(front[k] == list[k]);
        }
        at
    } else {
        let n = list.len() as int;
        assert(list.insert(n, x) =~= list.push(x));
        assert forall|k: int| 0 <= k < n implies entries[#[trigger] list[k]].parallel
            <= entries[x].parallel by {
            if k < n - 1 {
                assert(entries[list[k]].parallel <= entries[list[n - 1]].parallel);
            }
        }
        n
    }
}

/// The marked searches ascend, each stands there once, and no other does.
proof fn lemma_by_clients(entries: Seq<SearchEntry>, marks: Seq<bool>, n: int)
    requires
        0 <= n <= entries.len(),
        marks.len() == entries.len(),
    ensures
        ascend(entries, summary::by_clients(entries, marks, n)),
        summary::by_clients(entries, marks, n).no_duplicates(),
        forall|i: int|
            #[trigger] summary::by_clients(entries, marks, n).contains(i) <==> 0 <= i < n
                && marks[i],
    decreases n,
{
    if n > 0 {
        lemma_by_clients(entries, marks, n - 1);
        let list = summary::by_clients(entries, marks, n - 1);
        let all = summary::by_clients(entries, marks, n);
        if marks[n - 1] {
            let x = n - 1;
            let at = lemma_put(entries, list, x);
            assert(all == list.insert(at, x));
            assert(!list.contains(x));
            assert forall|j: int, k: int| 0 <= j < k < all.len() implies entries[
                #[trigger] all[j]].parallel <= entries[#[trigger] all[k]].parallel by {
                let p = if j < at {
                    j
                } else {
                    j - 1
                };
                let q = if k < at {
                    k
                } else {
                    k - 1
                };
                if j != at {
                    assert(all[j] == list[p]);
                }
                if k != at {
                    assert(all[k] == list[q]);
                }
            }
            assert forall|j: int, k: int|
                0 <= j < all.len() && 0 <= k < all.len() && j != k implies all[j] != all[k] by {
                let p = if j < at {
                    j
                } else {
                    j - 1
                };
                let q = if k < at {
                    k
                } else {
                    k - 1
                };
                if j != at {
                    assert(all[j] == list[p]);
                    assert(list.contains(list[p]));
                }
                if k != at {
                    assert(all[k] == list[q]);
                    assert(list.contains(list[q]));
                }
            }
            assert forall|i: int| #[trigger] all.contains(i) <==> 0 <= i < n && marks[i] by {
                if all.contains(i) {
                    let j = choose|j: int| 0 <= j < all.len() && all[j] == i;
                    if j < at {
                        assert(list[j] == i);
                        assert(list.contains(i));
                    } else if j > at {
                        assert(list[j - 1] == i);
                        assert(list.contains(i));
                    }
                }
                if 0 <= i < n - 1 && marks[i] {
                    assert(list.contains(i));
                    let j = choose|j: int| 0 <= j < list.len() && list[j] == i;
                    if j < at {
                        assert(all[j] == i);
                    } else {
                        assert(all[j + 1] == i);
                    }
                }
                if i == x {
                    assert(all[at] == x);
                }
            }
        } else {
            assert forall|i: int| #[trigger] all.contains(i) <==> 0 <= i < n && marks[i] by {
                assert(list.contains(i) <==> 0 <= i < n - 1 && marks[i]);
            }
        }
    }
}

/// Which neighbours of a list are pairs to look at.
proof fn lemma_saturating(entries: Seq<SearchEntry>, list: Seq<int>, n: int)
    requires
        0 <= n <= list.len(),
        list.no_duplicates(),
    ensures
        summary::saturating(entries, list, n).no_duplicates(),
        forall|a: int, b: int|
            #[trigger] summary::saturating(entries, list, n).contains((a, b)) <==> exists|k: int|
                1 <= k < n && list[k - 1] == a && #[trigger] list[k] == b && summary::may_saturate(
                    entries[a],
                    entries[b],
                ),
    decreases n,
{
    let all = summary::saturating(entries, list, n);
    if n > 1 {
        lemma_saturating(entries, list, n - 1);
        let before = summary::saturating(entries, list, n - 1);
        let last = (list[n - 2], list[n - 1]);
        let held = summary::may_saturate(entries[last.0], entries[last.1]);
        assert forall|a: int, b: int| #[trigger] all.contains((a, b)) <==> exists|k: int|
            1 <= k < n && list[k - 1] == a && #[trigger] list[k] == b && summary::may_saturate(
                entries[a],
                entries[b],
            ) by {
            if all.contains((a, b)) {
                let j = choose|j: int| 0 <= j < all.len() && all[j] == (a, b);
                if j < before.len() {
                    assert(before[j] == (a, b));
                    assert(before.contains((a, b)));
                } else {
                    assert(list[n - 1] == b);
                }
            }
            if exists|k: int|
                1 <= k < n && list[k - 1] == a && #[trigger] list[k] == b && summary::may_saturate(
                    entries[a],
                    entries[b],
                ) {
                let k = choose|k: int|
                    1 <= k < n && list[k - 1] == a && #[trigger] list[k] == b
                        && summary::may_saturate(entries[a], entries[b]);
                if k < n - 1 {
                    assert(before.contains((a, b)));
                    let j = choose|j: int| 0 <= j < before.len() && before[j] == (a, b);
                    assert(all[j] == (a, b));
                } else {
                    assert(all[before.len() as int] == (a, b));
                }
            }
        }
        if held {
            assert(!before.contains(last)) by {
                if before.contains(last) {
                    let k = choose|k: int|
                        1 <= k < n - 1 && list[k - 1] == last.0 && #[trigger] list[k] == last.1
                            && summary::may_saturate(entries[last.0], entries[last.1]);
                    assert(list[k] == list[n - 1]);
                }
            }
            assert forall|j: int, k: int|
                0 <= j < all.len() && 0 <= k < all.len() && j != k implies all[j] != all[k] by {
                if j < before.len() {
                    assert(before.contains(before[j]));
                }
                if k < before.len() {
                    assert(before.contains(before[k]));
                }
            }
        }
    }
}

/// The places of the searches at one breadth.
spec fn at_breadth(entries: Seq<SearchEntry>, ef: Seq<char>) -> Seq<int> {
    summary::by_clients(entries, summary::ef_marks(entries, ef), entries.len() as int)
}

/// Of the pairs at one breadth: they are the neighbouring levels between which the latency rose.
proof fn lemma_breadth_pairs(entries: Seq<SearchEntry>, ef: Seq<char>)
    requires
        levels_differ(entries),
    ensures
        ({
            let list = at_breadth(entries, ef);
            let pairs = summary::saturating(entries, list, list.len() as int);
            &&& pairs.no_duplicates()
            &&& forall|a: int, b: int|
                #[trigger] pairs.contains((a, b)) <==> next_level(entries, a, b) && entries[a].ef@
                    == ef && summary::may_saturate(entries[a], entries[b])
        }),
{
    let n = entries.len() as int;
    let marks = summary::ef_marks(entries, ef);
    let list = at_breadth(entries, ef);
    let pairs = summary::saturating(entries, list, list.len() as int);
    lemma_by_clients(entries, marks, n);
    lemma_saturating(entries, list, list.len() as int);
    assert forall|j: int, k: int| 0 <= j < k < list.len() implies entries[
        #[trigger] list[j]].parallel < entries[#[trigger] list[k]].parallel by {
        assert(list.contains(list[j]));
        assert(list.contains(list[k]));
        assert(marks[list[j]] && marks[list[k]]);
        assert(list[j] != list[k]);
        assert(entries[list[j]].ef@ == entries[list[k]].ef@);
    }
    assert forall|a: int, b: int| #[trigger] pairs.contains((a, b)) <==> next_level(entries, a, b)
        && entries[a].ef@ == ef && summary::may_saturate(entries[a], entries[b]) by {
        if pairs.contains((a, b)) {
            let k = choose|k: int|
                1 <= k < list.len() && list[k - 1] == a && #[trigger] list[k] == b
                    && summary::may_saturate(entries[a], entries[b]);
            assert(list.contains(list[k - 1]));
            assert(list.contains(list[k]));
            assert(marks[a] && marks[b]);
            assert forall|c: int|
                0 <= c < entries.len() && (#[trigger] entries[c]).ef@ == entries[a].ef@ implies
                entries[c].parallel <= entries[a].parallel || entries[b].parallel
                <= entries[c].parallel by {
                assert(marks[c]);
                assert(list.contains(c));
                let p = choose|p: int| 0 <= p < list.len() && list[p] == c;
                if p < k - 1 {
                    assert(entries[list[p]].parallel < entries[list[k - 1]].parallel);
                } else if p > k {
                    assert(entries[list[k]].parallel < entries[list[p]].parallel);
                }
            }
        }
        if next_level(entries, a, b) && entries[a].ef@ == ef && summary::may_saturate(
            entries[a],
            entries[b],
        ) {
            assert(marks[a] && marks[b]);
            assert(list.contains(a) && list.contains(b));
            let p = choose|p: int| 0 <= p < list.len() && list[p] == a;
            let q = choose|q: int| 0 <= q < list.len() && list[q] == b;
            if q < p {
                assert(entries[list[q]].parallel < entries[list[p]].parallel);
            }
            if p + 1 < q {
                let c = list[p + 1];
                assert(list.contains(c));
                assert(marks[c]);
                assert(entries[list[p]].parallel < entries[list[p + 1]].parallel);
                assert(entries[list[p + 1]].parallel < entries[list[q]].parallel);
                assert(entries[c].ef@ == entries[a].ef@);
            }
            assert(q == p + 1);
            assert(list[q - 1] == a && list[q] == b);
        }
    }
}

/// Of the pairs at the first `m` breadths.
proof fn lemma_pairs_of(entries: Seq<SearchEntry>, efs: Seq<Seq<char>>, m: int)
    requires
        levels_differ(entries),
        sorted_texts::ascending(efs),
        0 <= m <= efs.len(),
    ensures
        summary::pairs_of(entries, efs, m).no_duplicates(),
        forall|a: int, b: int|
            #[trigger] summary::pairs_of(entries, efs, m).contains((a, b)) <==> next_level(
                entries,
                a,
                b,
            ) && efs.take(m).contains(entries[a].ef@) && summary::may_saturate(
                entries[a],
                entries[b],
            ),
    decreases m,
{
    let all = summary::pairs_of(entries, efs, m);
    if m > 0 {
        lemma_pairs_of(entries, efs, m - 1);
        lemma_breadth_pairs(entries, efs[m - 1]);
        let before = summary::pairs_of(entries, efs, m - 1);
        let list = at_breadth(entries, efs[m - 1]);
        let here = summary::saturating(entries, list, list.len() as int);
        assert(all == before + here);
        assert(efs.take(m) =~= efs.take(m - 1).push(efs[m - 1]));
        assert(!efs.take(m - 1).contains(efs[m - 1])) by {
            if efs.take(m - 1).contains(efs[m - 1]) {
                let i = choose|i: int|
                    0 <= i < m - 1 && #[trigger] efs.take(m - 1)[i] == efs[m - 1];
                assert(sorted_texts::ascending(efs));
                assert(efs[i] == efs[m - 1]);
                sorted_texts::text_order_is_total(efs[i], efs[m - 1]);
            }
        }
        assert forall|a: int, b: int| #[trigger] all.contains((a, b)) <==> next_level(entries, a, b)
            && efs.take(m).contains(entries[a].ef@) && summary::may_saturate(
            entries[a],
            entries[b],
        ) by {
            let t = entries[a].ef@;
            assert(efs.take(m).contains(t) <==> efs.take(m - 1).contains(t) || t == efs[m - 1]) by {
                let s = efs.take(m - 1);
                if s.contains(t) {
                    let i = choose|i: int| 0 <= i < s.len() && s[i] == t;
                    assert(efs.take(m)[i] == t);
                }
                if t == efs[m - 1] {
                    assert(efs.take(m)[m - 1] == t);
                }
                if efs.take(m).contains(t) {
                    let i = choose|i: int| 0 <= i < m && #[trigger] efs.take(m)[i] == t;
                    if i < m - 1 {
                        assert(s[i] == t);
                    }
                }
            }
            if all.contains((a, b)) {
                let j = choose|j: int| 0 <= j < all.len() && all[j] == (a, b);
                if j < before.len() {
                    assert(before[j] == (a, b));
                    assert(before.contains((a, b)));
                } else {
                    assert(here[j - before.len()] == (a, b));
                    assert(here.contains((a, b)));
                }
            }
            if before.contains((a, b)) {
                let j = choose|j: int| 0 <= j < before.len() && before[j] == (a, b);
                assert(all[j] == (a, b));
            }
            if here.contains((a, b)) {
                let j = choose|j: int| 0 <= j < here.len() && here[j] == (a, b);
                assert(all[j + before.len()] == (a, b));
            }
        }
        assert forall|j: int, k: int|
            0 <= j < all.len() && 0 <= k < all.len() && j != k implies all[j] != all[k] by {
            if j < before.len() {
                assert(before.contains((before[j].0, before[j].1)));
            } else {
                assert(here.contains((here[j - before.len()].0, here[j - before.len()].1)));
            }
            if k < before.len() {
                assert(before.contains((before[k].0, before[k].1)));
            } else {
                assert(here.contains((here[k - before.len()].0, here[k - before.len()].1)));
            }
        }
    }
}

/// Of the pairs to look at.
proof fn lemma_all_pairs(entries: Seq<SearchEntry>)
    requires
        levels_differ(entries),
    ensures
        summary::all_pairs(entries).no_duplicates(),
        forall|a: int, b: int|
            #[trigger] summary::all_pairs(entries).contains((a, b)) <==> next_level(entries, a, b)
                && summary::may_saturate(entries[a], entries[b]),
{
    let n = entries.len() as int;
    let texts = summary::ef_texts(entries);
    let efs = sorted_texts::distinct(texts, n);
    sorted_texts::distinct_texts_ascend(texts, n);
    lemma_pairs_of(entries, efs, efs.len() as int);
    assert(efs.take(efs.len() as int) =~= efs);
    assert(texts.take(n) =~= texts);
    assert forall|a: int, b: int|
        #[trigger] summary::all_pairs(entries).contains((a, b)) <==> next_level(entries, a, b)
            && summary::may_saturate(entries[a], entries[b]) by {
        assert(summary::pairs_of(entries, efs, efs.len() as int).contains((a, b))
            == summary::all_pairs(entries).contains((a, b)));
        if next_level(entries, a, b) {
            assert(texts[a] == entries[a].ef@);
            assert(efs.contains(entries[a].ef@));
        }
    }
}

/// What is said stands for the steps of which something is said.
proof fn lemma_warned_steps(
    entries: Seq<SearchEntry>,
    gain: spec_fn(SearchEntry, SearchEntry) -> Gain,
    n: int,
)
    requires
        0 <= n <= summary::all_pairs(entries).len(),
        summary::all_pairs(entries).no_duplicates(),
    ensures
        ({
            let pairs = summary::all_pairs(entries);
            let gains = gains_of(entries, gain);
            let steps = warned_steps(pairs, gains, n);
            &&& steps.no_duplicates()
            &&& summary::scaling_lines(entries, pairs, gains, n) == Seq::new(
                steps.len(),
                |k: int|
                    step_line(
                        entries[steps[k].0],
                        entries[steps[k].1],
                        gain(entries[steps[k].0], entries[steps[k].1]),
                    ),
            )
            &&& forall|a: int, b: int|
                #[trigger] steps.contains((a, b)) <==> pairs.take(n).contains((a, b)) && gain(
                    entries[a],
                    entries[b],
                ).is_small
        }),
    decreases n,
{
    let pairs = summary::all_pairs(entries);
    let gains = gains_of(entries, gain);
    let steps = warned_steps(pairs, gains, n);
    let lines = Seq::new(
        steps.len(),
        |k: int|
            step_line(
                entries[steps[k].0],
                entries[steps[k].1],
                gain(entries[steps[k].0], entries[steps[k].1]),
            ),
    );
    if n > 0 {
        lemma_warned_steps(entries, gain, n - 1);
        let before = warned_steps(pairs, gains, n - 1);
        let last = pairs[n - 1];
        assert(gains[n - 1] == gain(entries[last.0], entries[last.1]));
        assert(summary::scaling_lines(entries, pairs, gains, n) =~= lines);
        assert(pairs.take(n) =~= pairs.take(n - 1).push(last));
        assert(!pairs.take(n - 1).contains(last)) by {
            if pairs.take(n - 1).contains(last) {
                let i = choose|i: int| 0 <= i < n - 1 && #[trigger] pairs.take(n - 1)[i] == last;
                assert(pairs[i] == pairs[n - 1]);
            }
        }
        assert forall|a: int, b: int| #[trigger] steps.contains((a, b)) <==> pairs.take(n).contains(
            (a, b),
        ) && gain(entries[a], entries[b]).is_small by {
            let p = (a, b);
            let s = pairs.take(n - 1);
            assert(before.contains(p) <==> s.contains(p) && gain(entries[a], entries[b]).is_small);
            if steps.contains(p) {
                let j = choose|j: int| 0 <= j < steps.len() && steps[j] == p;
                if j < before.len() {
                    assert(before[j] == p);
                    let i = choose|i: int| 0 <= i < s.len() && s[i] == p;
                    assert(pairs.take(n)[i] == p);
                } else {
                    assert(pairs.take(n)[n - 1] == p);
                }
            }
            if pairs.take(n).contains(p) && gain(entries[a], entries[b]).is_small {
                let i = choose|i: int| 0 <= i < n && #[trigger] pairs.take(n)[i] == p;
                if i < n - 1 {
                    assert(s[i] == p);
                    let j = choose|j: int| 0 <= j < before.len() && before[j] == p;
                    assert(steps[j] == p);
                } else {
                    assert(steps[before.len() as int] == p);
                }
            }
        }
        assert forall|j: int, k: int|
            0 <= j < steps.len() && 0 <= k < steps.len() && j != k implies steps[j] != steps[k] by {
            if j < before.len() {
                assert(before.contains((before[j].0, before[j].1)));
            }
            if k < before.len() {
                assert(before.contains((before[k].0, before[k].1)));
            }
        }
    } else {
        assert(summary::scaling_lines(entries, pairs, gains, n) =~= lines);
    }
}

/// Where no two searches at one breadth have the same number of clients, the warnings of clients that
/// do not pay off stand for the steps from a search to the one with the next higher number of clients at
/// its breadth that gained little of the rate while the latency rose: for each of them one, and none
/// beside.
pub proof fn steps_are_warned_of(
    entries: Seq<SearchEntry>,
    gain: spec_fn(SearchEntry, SearchEntry) -> Gain,
)
    requires
        levels_differ(entries),
    ensures
        ({
            let pairs = summary::all_pairs(entries);
            let gains = gains_of(entries, gain);
            let steps = warned_steps(pairs, gains, pairs.len() as int);
            &&& summary::scaling_lines(entries, pairs, gains, pairs.len() as int) == Seq::new(
                steps.len(),
                |k: int|
                    step_line(
                        entries[steps[k].0],
                        entries[steps[k].1],
                        gain(entries[steps[k].0], entries[steps[k].1]),
                    ),
            )
            &&& steps.no_duplicates()
            &&& forall|a: int, b: int|
                #[trigger] steps.contains((a, b)) <==> {
                    &&& next_level(entries, a, b)
                    &&& float_bits::less64(0, entries[a].results.rps_bits)
                    &&& float_bits::less64(0, entries[a].results.p95_bits)
                    &&& gain(entries[a], entries[b]).is_small
                    &&& float_bits::less64(entries[a].results.p95_bits, entries[b].results.p95_bits)
                }
        }),
{
    let pairs = summary::all_pairs(entries);
    lemma_all_pairs(entries);
    lemma_warned_steps(entries, gain, pairs.len() as int);
    assert(pairs.take(pairs.len() as int) =~= pairs);
}

/// The searches at places.
spec fn searches_at(entries: Seq<SearchEntry>, list: Seq<int>) -> Seq<SearchEntry> {
    Seq::new(list.len(), |k: int| entries[list[k]])
}

/// The searches at pairs of places.
spec fn searches_at_pairs(entries: Seq<SearchEntry>, pairs: Seq<(int, int)>) -> Seq<
    (SearchEntry, SearchEntry),
> {
    Seq::new(pairs.len(), |k: int| (entries[pairs[k].0], entries[pairs[k].1]))
}

/// Whether searches ascend by the number of clients, no two having the same.
spec fn climb(s: Seq<SearchEntry>) -> bool {
    forall|i: int, j: int|
        0 <= i < j < s.len() ==> (#[trigger] s[i]).parallel < (#[trigger] s[j]).parallel
}

/// Searches that ascend are in one order.
proof fn lemma_one_order(s: Seq<SearchEntry>, t: Seq<SearchEntry>)
    requires
        climb(s),
        climb(t),
        forall|x: SearchEntry| #[trigger] s.contains(x) <==> t.contains(x),
    ensures
        s == t,
    decreases s.len(),
{
    if s.len() == 0 {
        if t.len() > 0 {
            assert(t.contains(t[0]));
            assert(!s.contains(t[0]));
        }
        assert(s =~= t);
    } else {
        let x = s.last();
        assert(s.contains(x));
        let i = choose|i: int| 0 <= i < t.len() && t[i] == x;
        let y = t.last();
        assert(t.contains(y));
        assert(s.contains(y));
        let j = choose|j: int| 0 <= j < s.len() && s[j] == y;
        if i < t.len() - 1 && j < s.len() - 1 {
            assert(t[i].parallel < t[t.len() - 1].parallel);
            assert(s[j].parallel < s[s.len() - 1].parallel);
        }
        assert(x == y);
        let c = s.drop_last();
        let d = t.drop_last();
        assert(climb(c)) by {
            assert forall|k: int, l: int| 0 <= k < l < c.len() implies (#[trigger] c[k]).parallel < (
            #[trigger] c[l]).parallel by {
                assert(s[k].parallel < s[l].parallel);
            }
        }
        assert(climb(d)) by {
            assert forall|k: int, l: int| 0 <= k < l < d.len() implies (#[trigger] d[k]).parallel < (
            #[trigger] d[l]).parallel by {
                assert(t[k].parallel < t[l].parallel);
            }
        }
        assert forall|e: SearchEntry| #[trigger] c.contains(e) <==> d.contains(e) by {
            if c.contains(e) {
                let k = choose|k: int| 0 <= k < c.len() && c[k] == e;
                assert(s[k].parallel < s[s.len() - 1].parallel);
                assert(s.contains(e));
                let l = choose|l: int| 0 <= l < t.len() && t[l] == e;
                assert(d[l] == e);
            }
            if d.contains(e) {
                let k = choose|k: int| 0 <= k < d.len() && d[k] == e;
                assert(t[k].parallel < t[t.len() - 1].parallel);
                assert(t.contains(e));
                assert(s.contains(e));
                let l = choose|l: int| 0 <= l < s.len() && s[l] == e;
                assert(c[l] == e);
            }
        }
        lemma_one_order(c, d);
        assert(s =~= c.push(x));
        assert(t =~= d.push(y));
    }
}

/// The marked searches in ascending order are those that `chosen` picks out.
proof fn lemma_chosen(entries: Seq<SearchEntry>, chosen: spec_fn(SearchEntry) -> bool)
    requires
        clients_differ(entries),
    ensures
        ({
            let marks = Seq::new(entries.len(), |i: int| chosen(entries[i]));
            let s = searches_at(
                entries,
                summary::by_clients(entries, marks, entries.len() as int),
            );
            &&& climb(s)
            &&& forall|x: SearchEntry|
                #[trigger] s.contains(x) <==> entries.contains(x) && chosen(x)
        }),
{
    let n = entries.len() as int;
    let marks = Seq::new(entries.len(), |i: int| chosen(entries[i]));
    let list = summary::by_clients(entries, marks, n);
    let s = searches_at(entries, list);
    lemma_by_clients(entries, marks, n);
    assert forall|i: int, j: int| 0 <= i < j < s.len() implies (#[trigger] s[i]).parallel < (
    #[trigger] s[j]).parallel by {
        assert(list.contains(list[i]));
        assert(list.contains(list[j]));
        assert(list[i] != list[j]);
        assert(entries[list[i]].parallel <= entries[list[j]].parallel);
        assert(entries[list[i]].parallel != entries[list[j]].parallel);
    }
    assert forall|x: SearchEntry| #[trigger] s.contains(x) <==> entries.contains(x) && chosen(
        x,
    ) by {
        if s.contains(x) {
            let k = choose|k: int| 0 <= k < s.len() && s[k] == x;
            assert(list.contains(list[k]));
            assert(entries[list[k]] == x);
        }
        if entries.contains(x) && chosen(x) {
            let i = choose|i: int| 0 <= i < entries.len() && entries[i] == x;
            assert(marks[i]);
            assert(list.contains(i));
            let k = choose|k: int| 0 <= k < list.len() && list[k] == i;
            assert(s[k] == x);
        }
    }
}

/// The same searches in another order are marked and sorted into the same list.
proof fn lemma_same_choice(
    entries: Seq<SearchEntry>,
    other: Seq<SearchEntry>,
    chosen: spec_fn(SearchEntry) -> bool,
)
    requires
        clients_differ(entries),
        clients_differ(other),
        forall|x: SearchEntry| #[trigger] entries.contains(x) <==> other.contains(x),
    ensures
        searches_at(
            entries,
            summary::by_clients(
                entries,
                Seq::new(entries.len(), |i: int| chosen(entries[i])),
                entries.len() as int,
            ),
        ) == searches_at(
            other,
            summary::by_clients(
                other,
                Seq::new(other.len(), |i: int| chosen(other[i])),
                other.len() as int,
            ),
        ),
{
    let s = searches_at(
        entries,
        summary::by_clients(
            entries,
            Seq::new(entries.len(), |i: int| chosen(entries[i])),
            entries.len() as int,
        ),
    );
    let t = searches_at(
        other,
        summary::by_clients(
            other,
            Seq::new(other.len(), |i: int| chosen(other[i])),
            other.len() as int,
        ),
    );
    lemma_chosen(entries, chosen);
    lemma_chosen(other, chosen);
    assert forall|x: SearchEntry| #[trigger] s.contains(x) <==> t.contains(x) by {
        assert(entries.contains(x) <==> other.contains(x));
    }
    lemma_one_order(s, t);
}

/// The searches that the client held back are said by what they are, not by their places.
proof fn lemma_held_back(
    entries: Seq<SearchEntry>,
    list: Seq<int>,
    other: Seq<SearchEntry>,
    places: Seq<int>,
    n: int,
)
    requires
        searches_at(entries, list) == searches_at(other, places),
        n <= list.len(),
    ensures
        summary::held_back_lines(entries, list, n) == summary::held_back_lines(other, places, n),
    decreases n,
{
    if n > 0 {
        lemma_held_back(entries, list, other, places, n - 1);
        let s = searches_at(entries, list);
        assert(s.len() == list.len() && s.len() == searches_at(other, places).len());
        assert(s[n - 1] == entries[list[n - 1]] && s[n - 1] == other[places[n - 1]]);
    }
}

/// So are the neighbours of a list.
proof fn lemma_same_neighbours(
    entries: Seq<SearchEntry>,
    list: Seq<int>,
    other: Seq<SearchEntry>,
    places: Seq<int>,
    n: int,
)
    requires
        searches_at(entries, list) == searches_at(other, places),
        n <= list.len(),
    ensures
        searches_at_pairs(entries, summary::saturating(entries, list, n)) == searches_at_pairs(
            other,
            summary::saturating(other, places, n),
        ),
    decreases n,
{
    let a = summary::saturating(entries, list, n);
    let b = summary::saturating(other, places, n);
    if n > 1 {
        lemma_same_neighbours(entries, list, other, places, n - 1);
        let s = searches_at(entries, list);
        assert(s.len() == searches_at(other, places).len());
        assert(s[n - 1] == entries[list[n - 1]] && s[n - 1] == other[places[n - 1]]);
        assert(s[n - 2] == entries[list[n - 2]] && s[n - 2] == other[places[n - 2]]);
        let c = summary::saturating(entries, list, n - 1);
        let d = summary::saturating(other, places, n - 1);
        if summary::may_saturate(s[n - 2], s[n - 1]) {
            assert(searches_at_pairs(entries, a) =~= searches_at_pairs(entries, c).push(
                (s[n - 2], s[n - 1]),
            ));
            assert(searches_at_pairs(other, b) =~= searches_at_pairs(other, d).push(
                (s[n - 2], s[n - 1]),
            ));
        }
    } else {
        assert(searches_at_pairs(entries, a) =~= searches_at_pairs(other, b));
    }
}

/// So are the pairs at the first `m` breadths.
proof fn lemma_same_pairs(
    entries: Seq<SearchEntry>,
    other: Seq<SearchEntry>,
    efs: Seq<Seq<char>>,
    m: int,
)
    requires
        clients_differ(entries),
        clients_differ(other),
        forall|x: SearchEntry| #[trigger] entries.contains(x) <==> other.contains(x),
    ensures
        searches_at_pairs(entries, summary::pairs_of(entries, efs, m)) == searches_at_pairs(
            other,
            summary::pairs_of(other, efs, m),
        ),
    decreases m,
{
    let a = summary::pairs_of(entries, efs, m);
    let b = summary::pairs_of(other, efs, m);
    if m > 0 {
        lemma_same_pairs(entries, other, efs, m - 1);
        let ef = efs[m - 1];
        let chosen = |e: SearchEntry| e.ef@ == ef;
        lemma_same_choice(entries, other, chosen);
        assert(summary::ef_marks(entries, ef) =~= Seq::new(
            entries.len(),
            |i: int| chosen(entries[i]),
        ));
        assert(summary::ef_marks(other, ef) =~= Seq::new(other.len(), |i: int| chosen(other[i])));
        let list = at_breadth(entries, ef);
        let places = at_breadth(other, ef);
        assert(searches_at(entries, list).len() == searches_at(other, places).len());
        lemma_same_neighbours(entries, list, other, places, list.len() as int);
        let c = summary::pairs_of(entries, efs, m - 1);
        let d = summary::pairs_of(other, efs, m - 1);
        let e = summary::saturating(entries, list, list.len() as int);
        let f = summary::saturating(other, places, places.len() as int);
        assert(searches_at_pairs(entries, a) =~= searches_at_pairs(entries, c)
            + searches_at_pairs(entries, e));
        assert(searches_at_pairs(other, b) =~= searches_at_pairs(other, d) + searches_at_pairs(
            other,
            f,
        ));
    } else {
        assert(searches_at_pairs(entries, a) =~= searches_at_pairs(other, b));
    }
}

/// What is said of pairs goes by the searches, not by their places.
proof fn lemma_same_lines(
    entries: Seq<SearchEntry>,
    other: Seq<SearchEntry>,
    gain: spec_fn(SearchEntry, SearchEntry) -> Gain,
    n: int,
)
    requires
        searches_at_pairs(entries, summary::all_pairs(entries)) == searches_at_pairs(
            other,
            summary::all_pairs(other),
        ),
        n <= summary::all_pairs(entries).len(),
    ensures
        summary::scaling_lines(
            entries,
            summary::all_pairs(entries),
            gains_of(entries, gain),
            n,
        ) == summary::scaling_lines(other, summary::all_pairs(other), gains_of(other, gain), n),
    decreases n,
{
    if n > 0 {
        lemma_same_lines(entries, other, gain, n - 1);
        let s = searches_at_pairs(entries, summary::all_pairs(entries));
        let p = summary::all_pairs(entries)[n - 1];
        let q = summary::all_pairs(other)[n - 1];
        assert(s.len() == summary::all_pairs(other).len());
        assert(s[n - 1] == (entries[p.0], entries[p.1]));
        assert(s[n - 1] == (other[q.0], other[q.1]));
        assert(gains_of(entries, gain)[n - 1] == gain(entries[p.0], entries[p.1]));
        assert(gains_of(other, gain)[n - 1] == gain(other[q.0], other[q.1]));
    }
}

/// Where no two searches have the same number of clients, the warnings are the same in whichever order
/// the searches were made.
pub proof fn the_order_of_searches_does_not_matter(
    entries: Seq<SearchEntry>,
    other: Seq<SearchEntry>,
    gain: spec_fn(SearchEntry, SearchEntry) -> Gain,
)
    requires
        clients_differ(entries),
        entries.to_multiset() == other.to_multiset(),
    ensures
        summary::warnings(entries, gains_of(entries, gain)) == summary::warnings(
            other,
            gains_of(other, gain),
        ),
{
    entries.to_multiset_ensures();
    other.to_multiset_ensures();
    assert forall|x: SearchEntry| #[trigger] entries.contains(x) <==> other.contains(x) by {
        assert(entries.contains(x) <==> entries.to_multiset().count(x) > 0);
        assert(other.contains(x) <==> other.to_multiset().count(x) > 0);
    }
    assert(entries.no_duplicates());
    entries.lemma_multiset_has_no_duplicates();
    other.lemma_multiset_has_no_duplicates_conv();
    assert forall|i: int, j: int|
        0 <= i < other.len() && 0 <= j < other.len() && i != j implies (
    #[trigger] other[i]).parallel != (#[trigger] other[j]).parallel by {
        assert(other[i] != other[j]);
        assert(other.contains(other[i]) && other.contains(other[j]));
        assert(entries.contains(other[i]) && entries.contains(other[j]));
        let k = choose|k: int| 0 <= k < entries.len() && entries[k] == other[i];
        let l = choose|l: int| 0 <= l < entries.len() && entries[l] == other[j];
        assert(entries[k].parallel != entries[l].parallel);
    }
    let held = |e: SearchEntry| e.results.client_saturated;
    lemma_same_choice(entries, other, held);
    assert(summary::saturation_marks(entries) =~= Seq::new(
        entries.len(),
        |i: int| held(entries[i]),
    ));
    assert(summary::saturation_marks(other) =~= Seq::new(other.len(), |i: int| held(other[i])));
    let list = summary::by_clients(
        entries,
        summary::saturation_marks(entries),
        entries.len() as int,
    );
    let places = summary::by_clients(other, summary::saturation_marks(other), other.len() as int);
    assert(searches_at(entries, list).len() == searches_at(other, places).len());
    lemma_held_back(entries, list, other, places, list.len() as int);
    let texts = summary::ef_texts(entries);
    let others = summary::ef_texts(other);
    let n = entries.len() as int;
    let m = other.len() as int;
    sorted_texts::distinct_texts_ascend(texts, n);
    sorted_texts::distinct_texts_ascend(others, m);
    assert(texts.take(n) =~= texts);
    assert(others.take(m) =~= others);
    let a = sorted_texts::distinct(texts, n);
    let b = sorted_texts::distinct(others, m);
    assert forall|t: Seq<char>| #[trigger] a.contains(t) <==> b.contains(t) by {
        if texts.contains(t) {
            let i = choose|i: int| 0 <= i < texts.len() && texts[i] == t;
            assert(entries.contains(entries[i]));
            assert(other.contains(entries[i]));
            let j = choose|j: int| 0 <= j < other.len() && other[j] == entries[i];
            assert(others[j] == t);
        }
        if others.contains(t) {
            let j = choose|j: int| 0 <= j < others.len() && others[j] == t;
            assert(other.contains(other[j]));
            assert(entries.contains(other[j]));
            let i = choose|i: int| 0 <= i < entries.len() && entries[i] == other[j];
            assert(texts[i] == t);
        }
        assert(a.contains(t) <==> texts.contains(t));
        assert(b.contains(t) <==> others.contains(t));
    }
    sorted_texts::ascending_lists_are_one(a, b);
    lemma_same_pairs(entries, other, a, a.len() as int);
    assert(searches_at_pairs(entries, summary::all_pairs(entries)).len() == searches_at_pairs(
        other,
        summary::all_pairs(other),
    ).len());
    lemma_same_lines(entries, other, gain, summary::all_pairs(entries).len() as int);
}

/// The lines of searches that were held back, one for each.
proof fn lemma_held_back_lines(entries: Seq<SearchEntry>, list: Seq<int>, n: int)
    requires
        0 <= n <= list.len(),
    ensures
        summary::held_back_lines(entries, list, n) == Seq::new(
            n as nat,
            |k: int|
                summary::held_back_line(
                    entries[list[k]].ef@,
                    entries[list[k]].parallel as int,
                    entries[list[k]].results.saturation_reason@,
                ),
        ),
    decreases n,
{
    if n > 0 {
        lemma_held_back_lines(entries, list, n - 1);
    }
    assert(summary::held_back_lines(entries, list, n) =~= Seq::new(
        n as nat,
        |k: int|
            summary::held_back_line(
                entries[list[k]].ef@,
                entries[list[k]].parallel as int,
                entries[list[k]].results.saturation_reason@,
            ),
    ));
}

/// The warnings begin with one line for every search that the client held back and for no other, by
/// ascending number of clients, each with the breadth, the number of clients and the reason of its search.
pub proof fn searches_that_were_held_back_are_warned_of(
    entries: Seq<SearchEntry>,
    gains: Seq<Gain>,
) -> (held: Seq<int>)
    ensures
        held.no_duplicates(),
        forall|i: int| #[trigger]
            held.contains(i) <==> 0 <= i < entries.len() && entries[i].results.client_saturated,
        forall|j: int, k: int|
            0 <= j < k < held.len() ==> entries[#[trigger] held[j]].parallel <= entries[
                #[trigger] held[k]].parallel,
        held.len() <= summary::warnings(entries, gains).len(),
        forall|k: int|
            0 <= k < held.len() ==> #[trigger] summary::warnings(entries, gains)[k]
                == "client-saturated: ef="@ + entries[held[k]].ef@ + " parallel="@
                + text::signed_decimal(entries[held[k]].parallel as int) + " ("@
                + entries[held[k]].results.saturation_reason@
                + ") — QPS/latency reflect the client, not the DB"@,
        summary::warnings(entries, gains).skip(held.len() as int) == summary::scaling_lines(
            entries,
            summary::all_pairs(entries),
            gains,
            summary::all_pairs(entries).len() as int,
        ),
{
    let marks = summary::saturation_marks(entries);
    let n = entries.len() as int;
    lemma_by_clients(entries, marks, n);
    let held = summary::by_clients(entries, marks, n);
    lemma_held_back_lines(entries, held, held.len() as int);
    let lines = summary::held_back_lines(entries, held, held.len() as int);
    assert forall|i: int| #[trigger] held.contains(i) <==> 0 <= i < entries.len()
        && entries[i].results.client_saturated by {
        if 0 <= i < n {
            assert(marks[i] == entries[i].results.client_saturated);
        }
    }
    assert(summary::warnings(entries, gains).skip(held.len() as int) =~= summary::scaling_lines(
        entries,
        summary::all_pairs(entries),
        gains,
        summary::all_pairs(entries).len() as int,
    ));
    assert forall|k: int| 0 <= k < held.len() implies #[trigger] summary::warnings(entries, gains)[k]
        == "client-saturated: ef="@ + entries[held[k]].ef@ + " parallel="@ + text::signed_decimal(
        entries[held[k]].parallel as int,
    ) + " ("@ + entries[held[k]].results.saturation_reason@
        + ") — QPS/latency reflect the client, not the DB"@ by {
        assert(summary::warnings(entries, gains)[k] == lines[k]);
    }
    held
}

} // verus!
