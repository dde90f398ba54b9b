//! Retrieval quality of one query: recall, precision, mean reciprocal rank and discounted gain, as
//! exact fractions and ranks.
//!
//! The hits are the results that are in the ground truth. Three numbers are made of them that must not
//! be mixed up: `precision` divides by the results that came back, `recall` by the ground truth that
//! exists, and `recall_at_top` by the number that was asked for.
use std::collections::HashSet;

use vstd::prelude::*;

verus! {

/// A fraction.
#[derive(Debug, Clone, Copy, PartialEq, Eq, Structural)]
pub struct Ratio {
    pub numerator: usize,
    pub denominator: usize,
}

/// The quality of the results of one query.
#[derive(Debug, Clone)]
pub struct QueryMetrics {
    /// The hits by the ground truth that exists.
    pub recall: Ratio,
    /// The hits by the results that were kept.
    pub precision: Ratio,
    /// The hits by the number of results that was asked for.
    pub recall_at_top: Ratio,
    /// One by the rank of the first hit.
    pub mrr: Ratio,
    /// The places of the hits, from zero on. The discounted gain sums over them.
    pub hit_places: Vec<usize>,
    /// How many places the ideal gain sums over; where it is none, the gain is full.
    pub ideal_hits: usize,
}

/// The identifiers of a row that are no padding, in order.
pub open spec fn valid_ids(row: Seq<i64>) -> Seq<i64>
    decreases row.len(),
{
    if row.len() == 0 {
        Seq::empty()
    } else if row.last() >= 0 {
        valid_ids(row.drop_last()).push(row.last())
    } else {
        valid_ids(row.drop_last())
    }
}

/// The first `k` entries, or all where there are fewer.
pub open spec fn first_of(s: Seq<i64>, k: nat) -> Seq<i64> {
    if k < s.len() {
        s.take(k as int)
    } else {
        s
    }
}

/// The ground truth of a query: the first `k` valid identifiers of its row.
pub open spec fn truth(row: Seq<i64>, k: nat) -> Set<i64> {
    first_of(valid_ids(row), k).to_set()
}

/// The entries without those that occurred before.
pub open spec fn deduped(s: Seq<i64>) -> Seq<i64>
    decreases s.len(),
{
    if s.len() == 0 {
        Seq::empty()
    } else if s.drop_last().contains(s.last()) {
        deduped(s.drop_last())
    } else {
        deduped(s.drop_last()).push(s.last())
    }
}

/// The results that count: the first `k` without repetitions.
pub open spec fn kept(results: Seq<i64>, k: nat) -> Seq<i64> {
    first_of(deduped(results), k)
}

/// The places among the first `n` results that hold a hit.
pub open spec fn hit_places(results: Seq<i64>, truth: Set<i64>, n: int) -> Seq<int>
    decreases n,
{
    if n <= 0 {
        Seq::empty()
    } else if truth.contains(results[n - 1]) {
        hit_places(results, truth, n - 1).push(n - 1)
    } else {
        hit_places(results, truth, n - 1)
    }
}

/// The places of the hits of a query.
pub open spec fn hits_of(results: Seq<i64>, row: Seq<i64>, k: nat) -> Seq<int> {
    hit_places(kept(results, k), truth(row, k), kept(results, k).len() as int)
}

/// The valid identifiers of a beginning of a row are a beginning of those of the row.
proof fn lemma_valid_prefix(row: Seq<i64>, n: int)
    requires
        0 <= n <= row.len(),
    ensures
        valid_ids(row.take(n)).len() <= valid_ids(row).len(),
        valid_ids(row.take(n)) == valid_ids(row).take(valid_ids(row.take(n)).len() as int),
    decreases row.len(),
{
    if n < row.len() {
        lemma_valid_prefix(row.drop_last(), n);
        assert(row.drop_last().take(n) =~= row.take(n));
        assert(valid_ids(row.take(n)) =~= valid_ids(row).take(
            valid_ids(row.take(n)).len() as int,
        ));
    } else {
        assert(row.take(n) =~= row);
        assert(valid_ids(row) =~= valid_ids(row).take(valid_ids(row).len() as int));
    }
}

/// The same of entries without repetitions.
proof fn lemma_deduped_prefix(s: Seq<i64>, n: int)
    requires
        0 <= n <= s.len(),
    ensures
        deduped(s.take(n)).len() <= deduped(s).len(),
        deduped(s.take(n)) == deduped(s).take(deduped(s.take(n)).len() as int),
    decreases s.len(),
{
    if n < s.len() {
        lemma_deduped_prefix(s.drop_last(), n);
        assert(s.drop_last().take(n) =~= s.take(n));
        assert(deduped(s.take(n)) =~= deduped(s).take(deduped(s.take(n)).len() as int));
    } else {
        assert(s.take(n) =~= s);
        assert(deduped(s) =~= deduped(s).take(deduped(s).len() as int));
    }
}

/// No entry is left out, and none is there twice.
proof fn lemma_deduped(s: Seq<i64>)
    ensures
        deduped(s).no_duplicates(),
        deduped(s).to_set() == s.to_set(),
        deduped(s).len() <= s.len(),
    decreases s.len(),
{
    if s.len() > 0 {
        let front = s.drop_last();
        lemma_deduped(front);
        assert(s =~= front.push(s.last()));
        assert(forall|x: i64| #[trigger] deduped(front).to_set().contains(x) <==> front.to_set().contains(x));
        if front.contains(s.last()) {
            assert(front.to_set().contains(s.last()));
            assert(s.to_set() =~= front.to_set()) by {
                assert forall|x: i64| s.contains(x) <==> front.contains(x) by {
                    if s.contains(x) {
                        let i = choose|i: int| 0 <= i < s.len() && s[i] == x;
                        if i < front.len() {
                            assert(front[i] == x);
                        }
                    }
                    if front.contains(x) {
                        let i = choose|i: int| 0 <= i < front.len() && front[i] == x;
                        assert(s[i] == x);
                    }
                }
            }
        } else {
            assert(!front.to_set().contains(s.last()));
            assert(!deduped(front).contains(s.last()));
            assert(deduped(s) == deduped(front).push(s.last()));
            assert forall|x: i64| deduped(s).contains(x) <==> s.contains(x) by {
                assert(deduped(front).to_set().contains(x) <==> front.to_set().contains(x));
                if deduped(s).contains(x) {
                    let i = choose|i: int| 0 <= i < deduped(s).len() && deduped(s)[i] == x;
                    if i < deduped(front).len() {
                        assert(deduped(front)[i] == x);
                        let j = choose|j: int| 0 <= j < front.len() && front[j] == x;
                        assert(s[j] == x);
                    } else {
                        assert(s[s.len() - 1] == x);
                    }
                }
                if s.contains(x) {
                    let i = choose|i: int| 0 <= i < s.len() && s[i] == x;
                    if i < front.len() {
                        assert(front[i] == x);
                        assert(deduped(front).contains(x));
                        let j = choose|j: int|
                            0 <= j < deduped(front).len() && deduped(front)[j] == x;
                        assert(deduped(s)[j] == x);
                    } else {
                        assert(deduped(s)[deduped(s).len() - 1] == x);
                    }
                }
            }
            assert(deduped(s).to_set() =~= s.to_set());
        }
    } else {
        assert(deduped(s).to_set() =~= s.to_set());
    }
}

/// A set with one more entry.
proof fn lemma_pushed_set(s: Seq<i64>, x: i64)
    ensures
        s.push(x).to_set() == s.to_set().insert(x),
{
    assert forall|y: i64|
        s.push(x).to_set().contains(y) <==> s.to_set().insert(x).contains(y) by {
        if s.push(x).contains(y) && y != x {
            let i = choose|i: int| 0 <= i < s.push(x).len() && s.push(x)[i] == y;
            assert(s[i] == y);
        }
        if s.contains(y) {
            let i = choose|i: int| 0 <= i < s.len() && s[i] == y;
            assert(s.push(x)[i] == y);
        }
        if y == x {
            assert(s.push(x)[s.len() as int] == y);
        }
    }
    assert(s.push(x).to_set() =~= s.to_set().insert(x));
}

/// The ground truth of a query.
pub fn truth_set(row: &[i64], k: usize) -> (r: HashSet<i64>)
    ensures
        r@ == truth(row@, k as nat),
{
    broadcast use vstd::std_specs::hash::group_hash_axioms;

    let mut set: HashSet<i64> = HashSet::new();
    let mut taken: usize = 0;
    let mut i: usize = 0;
    assert(set@ =~= valid_ids(row@.take(0)).to_set());
    while i < row.len() && taken < k
        invariant
            i <= row@.len(),
            taken <= k,
            taken <= i,
            taken == valid_ids(row@.take(i as int)).len(),
            set@ == valid_ids(row@.take(i as int)).to_set(),
        decreases row@.len() - i,
    {
        broadcast use vstd::std_specs::hash::group_hash_axioms;

        let ghost sofar = valid_ids(row@.take(i as int));
        assert(row@.take(i + 1).drop_last() =~= row@.take(i as int));
        if row[i] >= 0 {
            proof {
                lemma_pushed_set(sofar, row@[i as int]);
            }
            set.insert(row[i]);
            taken += 1;
        }
        i += 1;
    }
    proof {
        lemma_valid_prefix(row@, i as int);
        let all = valid_ids(row@);
        if taken < k {
            assert(row@.take(i as int) =~= row@);
        } else {
            assert(all.take(taken as int) =~= first_of(all, k as nat));
        }
    }
    set
}

/// The first `k` results without repetitions.
pub fn kept_results(results: &[i64], k: usize) -> (r: Vec<i64>)
    ensures
        r@ == kept(results@, k as nat),
{
    broadcast use vstd::std_specs::hash::group_hash_axioms;

    let mut seen: HashSet<i64> = HashSet::new();
    let mut out: Vec<i64> = Vec::new();
    let mut i: usize = 0;
    assert(seen@ =~= results@.take(0).to_set());
    while i < results.len() && out.len() < k
        invariant
            i <= results@.len(),
            out@.len() <= k,
            out@ == deduped(results@.take(i as int)),
            seen@ == results@.take(i as int).to_set(),
        decreases results@.len() - i,
    {
        broadcast use vstd::std_specs::hash::group_hash_axioms;

        let id: i64 = results[i];
        proof {
            let sofar = results@.take(i as int);
            assert(results@.take(i + 1) =~= sofar.push(id));
            assert(results@.take(i + 1).drop_last() =~= sofar);
            lemma_pushed_set(sofar, id);
            assert(sofar.to_set().contains(id) <==> sofar.contains(id));
        }
        if seen.insert(id) {
            out.push(id);
        }
        i += 1;
    }
    proof {
        lemma_deduped_prefix(results@, i as int);
        let all = deduped(results@);
        if out@.len() < k {
            assert(results@.take(i as int) =~= results@);
        } else {
            assert(all.take(out@.len() as int) =~= first_of(all, k as nat));
        }
    }
    out
}

/// Whether there is nothing to find: nothing was asked for, or no ground truth exists. Such a query is
/// not counted against an engine.
pub open spec fn nothing_to_find(row: Seq<i64>, k: nat) -> bool {
    k == 0 || truth(row, k).len() == 0
}

/// Whether `m` holds the metrics of the results of a query.
pub open spec fn measures(results: Seq<i64>, ground_truth: Seq<i64>, k: nat, m: QueryMetrics) -> bool {
    if nothing_to_find(ground_truth, k) {
        &&& m.recall == (Ratio { numerator: 1, denominator: 1 })
        &&& m.precision == m.recall
        &&& m.recall_at_top == m.recall
        &&& m.mrr == m.recall
        &&& m.hit_places@.len() == 0
        &&& m.ideal_hits == 0
    } else {
        let hits = hits_of(results, ground_truth, k);
        let returned = kept(results, k).len();
        let existing = truth(ground_truth, k).len();
        &&& m.recall.numerator == hits.len() && m.recall.denominator == existing
        &&& m.recall_at_top.numerator == hits.len() && m.recall_at_top.denominator == k
        &&& returned == 0 ==> m.precision.numerator == 0 && m.precision.denominator == 1
        &&& returned > 0 ==> m.precision.numerator == hits.len() && m.precision.denominator
            == returned
        &&& hits.len() == 0 ==> m.mrr.numerator == 0 && m.mrr.denominator == 1
        &&& hits.len() > 0 ==> m.mrr.numerator == 1 && m.mrr.denominator == hits[0] + 1
        &&& places_view(m.hit_places@) == hits
        &&& m.ideal_hits == existing
    }
}

/// The quality of the results of one query. `results` are in the order of their rank, and `ground_truth`
/// holds the true neighbours.
pub fn compute_metrics(results: &[i64], ground_truth: &[i64], k: usize) -> (m: QueryMetrics)
    ensures
        measures(results@, ground_truth@, k as nat, m),
        k > 0 && (exists|i: int| 0 <= i < ground_truth@.len() && #[trigger] ground_truth@[i] >= 0) ==> {
            let counted = kept(results@, k as nat);
            let expected = truth(ground_truth@, k as nat);
            &&& m.recall.numerator == counted.to_set().intersect(expected).len()
            &&& m.recall.denominator == expected.len()
            &&& m.recall_at_top.numerator == m.recall.numerator && m.recall_at_top.denominator == k
            &&& counted.len() > 0 ==> m.precision.numerator == m.recall.numerator
                && m.precision.denominator == counted.len()
        },
{
    broadcast use vstd::std_specs::hash::group_hash_axioms;

    let full: Ratio = Ratio { numerator: 1, denominator: 1 };
    if k == 0 {
        return QueryMetrics {
            recall: full,
            precision: full,
            recall_at_top: full,
            mrr: full,
            hit_places: Vec::new(),
            ideal_hits: 0,
        };
    }
    let truth_ids: HashSet<i64> = truth_set(ground_truth, k);
    let existing: usize = truth_ids.len();
    if existing == 0 {
        proof {
            if exists|i: int| 0 <= i < ground_truth@.len() && #[trigger] ground_truth@[i] >= 0 {
                let at = choose|i: int|
                    0 <= i < ground_truth@.len() && #[trigger] ground_truth@[i] >= 0;
                lemma_first_valid(ground_truth@, k as nat, at);
            }
        }
        return QueryMetrics {
            recall: full,
            precision: full,
            recall_at_top: full,
            mrr: full,
            hit_places: Vec::new(),
            ideal_hits: 0,
        };
    }
    let top: Vec<i64> = kept_results(results, k);
    let mut places: Vec<usize> = Vec::new();
    let mut i: usize = 0;
    while i < top.len()
        invariant
            i <= top@.len(),
            truth_ids@ == truth(ground_truth@, k as nat),
            places@.len() <= i,
            places_view(places@) == hit_places(top@, truth_ids@, i as int),
            forall|j: int| 0 <= j < places@.len() ==> (#[trigger] places@[j]) < i,
        decreases top@.len() - i,
    {
        broadcast use vstd::std_specs::hash::group_hash_axioms;

        let ghost sofar = places_view(places@);
        if truth_ids.contains(&top[i]) {
            places.push(i);
            assert(places_view(places@) =~= sofar.push(i as int));
        }
        i += 1;
    }
    let hits: usize = places.len();
    let precision: Ratio = if top.len() == 0 {
        Ratio { numerator: 0, denominator: 1 }
    } else {
        Ratio { numerator: hits, denominator: top.len() }
    };
    let mrr: Ratio = if hits == 0 {
        Ratio { numerator: 0, denominator: 1 }
    } else {
        assert(places_view(places@)[0] == places@[0]);
        Ratio { numerator: 1, denominator: places[0] + 1 }
    };
    let m: QueryMetrics = QueryMetrics {
        recall: Ratio { numerator: hits, denominator: existing },
        precision,
        recall_at_top: Ratio { numerator: hits, denominator: k },
        mrr,
        hit_places: places,
        ideal_hits: existing,
    };
    proof {
        hits_count_what_is_common(results@, ground_truth@, k as nat);
    }
    m
}

/// The places as mathematical integers.
pub open spec fn places_view(places: Seq<usize>) -> Seq<int> {
    Seq::new(places.len(), |i: int| places[i] as int)
}

/// The hits are in the ground truth, ascend, and are as many as there are.
proof fn lemma_hit_places(results: Seq<i64>, truth: Set<i64>, n: int)
    requires
        0 <= n <= results.len(),
        results.no_duplicates(),
        truth.finite(),
    ensures
        hit_places(results, truth, n).len() <= n,
        hit_places(results, truth, n).len() <= truth.len(),
        hit_places(results, truth, n).len() == results.take(n).to_set().intersect(truth).len(),
        results.take(n).to_set().finite(),
    decreases n,
{
    if n > 0 {
        lemma_hit_places(results, truth, n - 1);
        let before = results.take(n - 1);
        let last = results[n - 1];
        assert(results.take(n) =~= before.push(last));
        lemma_pushed_set(before, last);
        assert(!before.to_set().contains(last)) by {
            if before.contains(last) {
                let i = choose|i: int| 0 <= i < before.len() && before[i] == last;
                assert(results[i] == results[n - 1]);
            }
        }
        if truth.contains(last) {
            assert(before.to_set().insert(last).intersect(truth) =~= before.to_set().intersect(
                truth,
            ).insert(last));
        } else {
            assert(before.to_set().insert(last).intersect(truth) =~= before.to_set().intersect(
                truth,
            ));
        }
        vstd::set_lib::lemma_len_intersect(truth, results.take(n).to_set());
        assert(truth.intersect(results.take(n).to_set()) =~= results.take(n).to_set().intersect(
            truth,
        ));
    } else {
        assert(results.take(0).to_set().intersect(truth) =~= Set::empty());
        assert(results.take(0).to_set() =~= Set::empty());
    }
}

/// What counts of the results holds no repetition and is no longer than what was asked for.
proof fn lemma_kept(results: Seq<i64>, k: nat)
    ensures
        kept(results, k).no_duplicates(),
        kept(results, k).len() <= k,
        kept(results, k).len() <= results.len(),
{
    lemma_deduped(results);
}

/// No recall is above one: the hits are no more than the ground truth, than the results that came
/// back, and than what was asked for, however often an engine repeats a result and however many it
/// returns.
pub proof fn hits_are_bounded(results: Seq<i64>, row: Seq<i64>, k: nat)
    ensures
        hits_of(results, row, k).len() <= truth(row, k).len(),
        hits_of(results, row, k).len() <= kept(results, k).len(),
        hits_of(results, row, k).len() <= k,
{
    lemma_kept(results, k);
    let top = kept(results, k);
    lemma_hit_places(top, truth(row, k), top.len() as int);
}

/// There are as many hits as the kept results and the ground truth have in common.
pub proof fn hits_count_what_is_common(results: Seq<i64>, row: Seq<i64>, k: nat)
    ensures
        hits_of(results, row, k).len() == kept(results, k).to_set().intersect(
            truth(row, k),
        ).len(),
{
    lemma_kept(results, k);
    let top = kept(results, k);
    lemma_hit_places(top, truth(row, k), top.len() as int);
    assert(top.take(top.len() as int) =~= top);
}

/// An engine that returns the whole ground truth reaches full recall, also where there is less of it
/// than was asked for.
pub proof fn finding_all_is_full_recall(results: Seq<i64>, row: Seq<i64>, k: nat)
    requires
        truth(row, k).subset_of(kept(results, k).to_set()),
    ensures
        hits_of(results, row, k).len() == truth(row, k).len(),
{
    hits_count_what_is_common(results, row, k);
    assert(kept(results, k).to_set().intersect(truth(row, k)) =~= truth(row, k));
}

/// With as much ground truth and as many results as were asked for, the three fractions are one.
pub proof fn full_width_makes_all_three_agree(
    results: Seq<i64>,
    row: Seq<i64>,
    k: nat,
    m: QueryMetrics,
)
    requires
        k > 0,
        kept(results, k).len() == k,
        truth(row, k).len() == k,
        measures(results, row, k, m),
    ensures
        m.recall == m.precision,
        m.recall == m.recall_at_top,
        m.recall.numerator <= m.recall.denominator,
        m.recall.denominator == k,
{
    hits_are_bounded(results, row, k);
}

/// The identifiers of a row that are no padding are those that are not negative.
pub proof fn padding_is_what_is_negative(row: Seq<i64>)
    ensures
        valid_ids(row) == row.filter(|x: i64| x >= 0),
    decreases row.len(),
{
    reveal(Seq::filter);
    if row.len() > 0 {
        padding_is_what_is_negative(row.drop_last());
    }
}

/// The ground truth of a query holds an identifier exactly where the row holds it, it is no padding, and
/// fewer than `k` that are no padding stand before it.
pub proof fn the_ground_truth_is_the_front_of_the_row(row: Seq<i64>, k: nat, x: i64)
    ensures
        truth(row, k).contains(x) <==> exists|i: int|
            0 <= i < row.len() && #[trigger] row[i] == x && x >= 0 && row.take(i).filter(
                |y: i64| y >= 0,
            ).len() < k,
        truth(row, k).finite(),
        truth(row, k).len() <= k,
{
    padding_is_what_is_negative(row);
    let all = valid_ids(row);
    let front = first_of(all, k);
    front.lemma_cardinality_of_set();
    if front.contains(x) {
        let at = choose|at: int| 0 <= at < front.len() && front[at] == x;
        let i = lemma_valid_place(row, at);
        padding_is_what_is_negative(row.take(i));
        assert(row[i] == x);
    }
    if exists|i: int|
        0 <= i < row.len() && #[trigger] row[i] == x && x >= 0 && row.take(i).filter(
            |y: i64| y >= 0,
        ).len() < k {
        let i = choose|i: int|
            0 <= i < row.len() && #[trigger] row[i] == x && x >= 0 && row.take(i).filter(
                |y: i64| y >= 0,
            ).len() < k;
        padding_is_what_is_negative(row.take(i));
        let at = valid_ids(row.take(i)).len() as int;
        lemma_valid_prefix(row, i + 1);
        assert(row.take(i + 1).drop_last() =~= row.take(i));
        assert(valid_ids(row.take(i + 1)) == valid_ids(row.take(i)).push(x));
        assert(all[at] == all.take(at + 1)[at]);
        assert(front[at] == x);
    }
}

/// The place in a row of one of its valid identifiers.
proof fn lemma_valid_place(row: Seq<i64>, at: int) -> (i: int)
    requires
        0 <= at < valid_ids(row).len(),
    ensures
        0 <= i < row.len(),
        row[i] == valid_ids(row)[at],
        row[i] >= 0,
        valid_ids(row.take(i)).len() == at,
    decreases row.len(),
{
    let front = row.drop_last();
    if at < valid_ids(front).len() {
        let i = lemma_valid_place(front, at);
        assert(front.take(i) =~= row.take(i));
        i
    } else {
        assert(row.take(row.len() - 1) =~= front);
        row.len() - 1
    }
}

/// The results that count are the first `k` different ones in the order in which they came: a result that
/// did not come before stands at the place that the number of different results before it gives, where
/// that is one of the first `k`, and is left out otherwise.
pub proof fn the_first_different_results_count(results: Seq<i64>, k: nat)
    ensures
        kept(results, k).no_duplicates(),
        kept(results, k).len() == if results.to_set().len() < k {
            results.to_set().len()
        } else {
            k
        },
        forall|i: int|
            0 <= i < results.len() && !results.take(i).contains(#[trigger] results[i]) ==> {
                let before = results.take(i).to_set().len();
                if before < k {
                    before < kept(results, k).len() && kept(results, k)[before as int] == results[i]
                } else {
                    !kept(results, k).contains(results[i])
                }
            },
{
    lemma_deduped(results);
    let all = deduped(results);
    all.unique_seq_to_set();
    assert forall|i: int|
        0 <= i < results.len() && !results.take(i).contains(#[trigger] results[i]) implies {
        let before = results.take(i).to_set().len();
        if before < k {
            before < kept(results, k).len() && kept(results, k)[before as int] == results[i]
        } else {
            !kept(results, k).contains(results[i])
        }
    } by {
        let sofar = results.take(i);
        lemma_deduped(sofar);
        deduped(sofar).unique_seq_to_set();
        assert(results.take(i + 1).drop_last() =~= sofar);
        lemma_deduped_prefix(results, i + 1);
        let before = sofar.to_set().len() as int;
        assert(deduped(results.take(i + 1)) == deduped(sofar).push(results[i]));
        assert(all[before] == all.take(before + 1)[before]);
        if before >= k {
            if kept(results, k).contains(results[i]) {
                let j = choose|j: int|
                    0 <= j < kept(results, k).len() && kept(results, k)[j] == results[i];
                assert(all[j] == all[before]);
            }
        }
    }
}

/// The hits stand in order at exactly the places of what is in the ground truth.
proof fn lemma_hits_are_all(results: Seq<i64>, truth: Set<i64>, n: int)
    requires
        0 <= n <= results.len(),
    ensures
        ({
            let places = hit_places(results, truth, n);
            &&& forall|j: int|
                0 <= j < places.len() ==> 0 <= #[trigger] places[j] < n && truth.contains(
                    results[places[j]],
                )
            &&& forall|i: int, j: int| 0 <= i < j < places.len() ==> places[i] < places[j]
            &&& forall|i: int|
                0 <= i < n && truth.contains(#[trigger] results[i]) ==> places.contains(i)
        }),
    decreases n,
{
    if n > 0 {
        lemma_hits_are_all(results, truth, n - 1);
        let before = hit_places(results, truth, n - 1);
        let places = hit_places(results, truth, n);
        assert forall|i: int| 0 <= i < n && truth.contains(#[trigger] results[i]) implies places.contains(
            i,
        ) by {
            if i < n - 1 {
                let j = choose|j: int| 0 <= j < before.len() && before[j] == i;
                assert(places[j] == i);
            } else {
                assert(places[before.len() as int] == i);
            }
        }
    }
}

/// The scores of a query with something to find count what the results that count and the ground truth
/// have in common: against the ground truth that exists, against the results that counted, and against
/// what was asked for, at every width of the ground truth. Recall is none where nothing was found and full
/// only where everything was. The reciprocal rank is that of the first hit, and the gain sums over the
/// places of all hits.
pub proof fn scores_count_what_was_found(
    results: Seq<i64>,
    row: Seq<i64>,
    k: nat,
    m: QueryMetrics,
)
    requires
        measures(results, row, k, m),
        k > 0,
        exists|i: int| 0 <= i < row.len() && #[trigger] row[i] >= 0,
    ensures
        ({
            let counted = kept(results, k);
            let expected = truth(row, k);
            let found = counted.to_set().intersect(expected).len();
            &&& m.recall.numerator == found && m.recall.denominator == expected.len()
            &&& m.recall_at_top.numerator == found && m.recall_at_top.denominator == k
            &&& counted.len() > 0 ==> m.precision.numerator == found && m.precision.denominator
                == counted.len()
            &&& counted.len() == 0 ==> m.precision.numerator == 0 && m.precision.denominator == 1
            &&& expected.len() > 0
            &&& m.recall.numerator == 0 <==> forall|i: int|
                0 <= i < counted.len() ==> !expected.contains(#[trigger] counted[i])
            &&& m.recall.numerator == m.recall.denominator <==> forall|x: i64|
                expected.contains(x) ==> #[trigger] counted.contains(x)
            &&& m.mrr.numerator == 0 <==> found == 0
            &&& found > 0 ==> m.mrr.numerator == 1 && 1 <= m.mrr.denominator <= counted.len()
                && expected.contains(counted[m.mrr.denominator - 1]) && forall|i: int|
                0 <= i < m.mrr.denominator - 1 ==> !expected.contains(#[trigger] counted[i])
            &&& m.hit_places@.len() == found && m.ideal_hits == expected.len()
            &&& forall|j: int|
                0 <= j < m.hit_places@.len() ==> (#[trigger] m.hit_places@[j]) < counted.len()
                    && expected.contains(counted[m.hit_places@[j] as int])
            &&& forall|i: int, j: int|
                0 <= i < j < m.hit_places@.len() ==> m.hit_places@[i] < m.hit_places@[j]
        }),
{
    let counted = kept(results, k);
    let expected = truth(row, k);
    let n = counted.len() as int;
    let at = choose|i: int| 0 <= i < row.len() && #[trigger] row[i] >= 0;
    lemma_first_valid(row, k, at);
    the_ground_truth_is_the_front_of_the_row(row, k, 0);
    assert(!nothing_to_find(row, k));
    lemma_kept(results, k);
    hits_count_what_is_common(results, row, k);
    lemma_hits_are_all(counted, expected, n);
    let hits = hits_of(results, row, k);
    let common = counted.to_set().intersect(expected);
    counted.lemma_cardinality_of_set();
    if hits.len() == 0 {
        assert forall|i: int| 0 <= i < counted.len() implies !expected.contains(#[trigger] counted[i]) by {
            if expected.contains(counted[i]) {
                assert(hits.contains(i));
            }
        }
    } else {
        assert(expected.contains(counted[hits[0]]));
        assert forall|i: int| 0 <= i < hits[0] implies !expected.contains(#[trigger] counted[i]) by {
            if expected.contains(counted[i]) {
                let j = choose|j: int| 0 <= j < hits.len() && hits[j] == i;
                assert(hits[0] <= hits[j]);
            }
        }
    }
    if forall|x: i64| expected.contains(x) ==> #[trigger] counted.contains(x) {
        assert(common =~= expected);
    }
    if common.len() == expected.len() {
        vstd::set_lib::lemma_subset_equality(common, expected);
        assert forall|x: i64| expected.contains(x) implies #[trigger] counted.contains(x) by {
            assert(common.contains(x));
        }
    }
    assert forall|j: int| 0 <= j < m.hit_places@.len() implies (#[trigger] m.hit_places@[j])
        < counted.len() && expected.contains(counted[m.hit_places@[j] as int]) by {
        assert(places_view(m.hit_places@)[j] == hits[j]);
    }
    assert forall|i: int, j: int| 0 <= i < j < m.hit_places@.len() implies m.hit_places@[i]
        < m.hit_places@[j] by {
        assert(places_view(m.hit_places@)[i] == hits[i]);
        assert(places_view(m.hit_places@)[j] == hits[j]);
    }
}

/// A row with a valid identifier has a ground truth.
proof fn lemma_first_valid(row: Seq<i64>, k: nat, at: int)
    requires
        0 <= at < row.len(),
        row[at] >= 0,
        k > 0,
    ensures
        truth(row, k).len() > 0,
{
    lemma_valid_prefix(row, at + 1);
    assert(row.take(at + 1).drop_last() =~= row.take(at));
    let front = first_of(valid_ids(row), k);
    assert(front.len() > 0);
    front.lemma_cardinality_of_set();
    assert(front.to_set().contains(front[0]));
}

/// A query with nothing to find, because nothing was asked for or no ground truth exists, is scored in
/// full and adds nothing to the gain.
pub proof fn nothing_to_find_is_scored_in_full(
    results: Seq<i64>,
    row: Seq<i64>,
    k: nat,
    m: QueryMetrics,
)
    requires
        measures(results, row, k, m),
        k == 0 || forall|i: int| 0 <= i < row.len() ==> #[trigger] row[i] < 0,
    ensures
        m.recall.numerator == m.recall.denominator && m.recall.denominator > 0,
        m.precision.numerator == m.precision.denominator && m.precision.denominator > 0,
        m.recall_at_top.numerator == m.recall_at_top.denominator && m.recall_at_top.denominator > 0,
        m.mrr.numerator == m.mrr.denominator && m.mrr.denominator > 0,
        m.hit_places@.len() == 0,
        m.ideal_hits == 0,
{
    let expected = truth(row, k);
    assert forall|x: i64| !expected.contains(x) by {
        the_ground_truth_is_the_front_of_the_row(row, k, x);
    }
    assert(expected =~= Set::empty());
}

} // verus!
