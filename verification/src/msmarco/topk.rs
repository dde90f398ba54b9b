//! The best matches of each query over the whole corpus, found block by block.
//!
//! Scores are held as the bit patterns of single-precision numbers.
use vstd::prelude::*;

use crate::float_bits::{self, below32, not_above32};
use crate::text::{self, decimal_text, signed_decimal_text};

verus! {

/// Whether `a` ranks before `b`: it has the higher score, or the lower number where neither score is
/// higher.
pub open spec fn better(a: (u32, i64), b: (u32, i64)) -> bool {
    float_bits::less32(b.0, a.0) || (!float_bits::less32(a.0, b.0) && a.1 < b.1)
}

/// Whether entries stand in the order of their rank, and every score is a number.
pub open spec fn ranked(list: Seq<(u32, i64)>) -> bool {
    &&& forall|i: int| 0 <= i < list.len() ==> !float_bits::is_nan32((#[trigger] list[i]).0)
    &&& forall|i: int, j: int|
        0 <= i < j < list.len() ==> better(#[trigger] list[i], #[trigger] list[j])
}

/// The place of an entry in a list: behind the entries that it does not rank before.
pub open spec fn place(list: Seq<(u32, i64)>, e: (u32, i64)) -> int
    decreases list.len(),
{
    if list.len() == 0 || better(e, list[0]) {
        0
    } else {
        1 + place(list.skip(1), e)
    }
}

/// The smaller of two numbers.
pub open spec fn smaller(a: int, b: int) -> int {
    if a < b {
        a
    } else {
        b
    }
}

/// The best `k` of a list and one more entry.
pub open spec fn with_entry(list: Seq<(u32, i64)>, e: (u32, i64), k: int) -> Seq<(u32, i64)> {
    list.insert(place(list, e), e).take(smaller(list.len() as int + 1, k))
}

/// The best `k` of the entries.
pub open spec fn best_of(entries: Seq<(u32, i64)>, k: int) -> Seq<(u32, i64)>
    decreases entries.len(),
{
    if entries.len() == 0 {
        Seq::empty()
    } else {
        with_entry(best_of(entries.drop_last(), k), entries.last(), k)
    }
}

/// The entries of a block: the scores of its rows, the first of which has the number `first_id`.
pub open spec fn block_entries(scores: Seq<u32>, first_id: int) -> Seq<(u32, i64)> {
    Seq::new(scores.len(), |i: int| (scores[i], (first_id + i) as i64))
}

/// What each query was offered, with the entries of one more block.
pub open spec fn with_block(
    offered: Seq<Seq<(u32, i64)>>,
    scores: Seq<Vec<u32>>,
    first_id: int,
) -> Seq<Seq<(u32, i64)>> {
    Seq::new(offered.len(), |q: int| offered[q] + block_entries(scores[q]@, first_id))
}

/// Whether entries can be ranked in the order in which they come: every score is a number, and the
/// numbers of the rows ascend.
pub open spec fn in_order(entries: Seq<(u32, i64)>) -> bool {
    &&& forall|i: int| 0 <= i < entries.len() ==> !float_bits::is_nan32((#[trigger] entries[i]).0)
    &&& forall|i: int, j: int|
        0 <= i < j < entries.len() ==> (#[trigger] entries[i]).1 < (#[trigger] entries[j]).1
}

/// The place of an entry is inside the list; before it, nothing is worse.
proof fn lemma_place(list: Seq<(u32, i64)>, e: (u32, i64))
    ensures
        0 <= place(list, e) <= list.len(),
        forall|i: int| 0 <= i < place(list, e) ==> !better(e, #[trigger] list[i]),
        place(list, e) < list.len() ==> better(e, list[place(list, e)]),
    decreases list.len(),
{
    if list.len() > 0 && !better(e, list[0]) {
        lemma_place(list.skip(1), e);
        assert forall|i: int| 0 <= i < place(list, e) implies !better(e, #[trigger] list[i]) by {
            if i > 0 {
                assert(list.skip(1)[i - 1] == list[i]);
            }
        }
    }
}

/// Where an entry is not worse than what is before `n` and better than what is there, `n` is its
/// place.
proof fn lemma_place_is(list: Seq<(u32, i64)>, e: (u32, i64), n: int)
    requires
        0 <= n <= list.len(),
        forall|i: int| 0 <= i < n ==> !better(e, #[trigger] list[i]),
        n < list.len() ==> better(e, list[n]),
    ensures
        place(list, e) == n,
    decreases n,
{
    if n > 0 {
        assert(!better(e, list[0]));
        assert forall|i: int| 0 <= i < n - 1 implies !better(e, #[trigger] list.skip(1)[i]) by {
            assert(list.skip(1)[i] == list[i + 1]);
        }
        lemma_place_is(list.skip(1), e, n - 1);
    }
}

/// A ranked list stays ranked with one more entry, and loses at most its last.
proof fn lemma_with_entry(list: Seq<(u32, i64)>, e: (u32, i64), k: int)
    requires
        ranked(list),
        !float_bits::is_nan32(e.0),
        0 < k,
        list.len() <= k,
        forall|i: int| 0 <= i < list.len() ==> (#[trigger] list[i]).1 != e.1,
    ensures
        ranked(with_entry(list, e, k)),
        with_entry(list, e, k).len() == smaller(list.len() as int + 1, k),
        forall|i: int|
            0 <= i < with_entry(list, e, k).len() ==> (#[trigger] with_entry(list, e, k)[i]) == e
                || list.contains(with_entry(list, e, k)[i]),
        list.len() < k ==> with_entry(list, e, k) == list.insert(place(list, e), e),
{
    let p = place(list, e);
    lemma_place(list, e);
    let full = list.insert(p, e);
    let kept = with_entry(list, e, k);
    assert forall|i: int| 0 <= i < full.len() implies !float_bits::is_nan32(
        (#[trigger] full[i]).0,
    ) by {
        if i < p {
            assert(full[i] == list[i]);
        } else if i > p {
            assert(full[i] == list[i - 1]);
        }
    }
    assert forall|i: int, j: int| 0 <= i < j < full.len() implies better(
        #[trigger] full[i],
        #[trigger] full[j],
    ) by {
        if j < p {
            assert(full[i] == list[i] && full[j] == list[j]);
        } else if j == p {
            assert(full[i] == list[i]);
            assert(!better(e, list[i]));
        } else if i < p {
            assert(full[i] == list[i] && full[j] == list[j - 1]);
        } else if i == p {
            assert(full[j] == list[j - 1]);
            assert(better(e, list[p]));
            if j - 1 > p {
                assert(better(list[p], list[j - 1]));
            }
        } else {
            assert(full[i] == list[i - 1] && full[j] == list[j - 1]);
        }
    }
    assert forall|i: int| 0 <= i < kept.len() implies (#[trigger] kept[i]) == e || list.contains(
        kept[i],
    ) by {
        assert(kept[i] == full[i]);
        if i < p {
            assert(full[i] == list[i]);
        } else if i > p {
            assert(full[i] == list[i - 1]);
        }
    }
    assert forall|i: int| 0 <= i < kept.len() implies !float_bits::is_nan32(
        (#[trigger] kept[i]).0,
    ) by {
        assert(kept[i] == full[i]);
    }
    assert forall|i: int, j: int| 0 <= i < j < kept.len() implies better(
        #[trigger] kept[i],
        #[trigger] kept[j],
    ) by {
        assert(kept[i] == full[i] && kept[j] == full[j]);
    }
    if list.len() < k {
        assert(kept =~= full);
    }
}

/// The best `k` of entries that come in order are ranked, are among the entries, and are as many as
/// there can be; every entry that is not among them ranks behind all of them.
pub proof fn the_best_are_kept(entries: Seq<(u32, i64)>, k: int)
    requires
        in_order(entries),
        0 < k,
    ensures
        ranked(best_of(entries, k)),
        best_of(entries, k).len() == smaller(entries.len() as int, k),
        forall|i: int|
            0 <= i < best_of(entries, k).len() ==> entries.contains(
                #[trigger] best_of(entries, k)[i],
            ),
        forall|i: int, j: int|
            0 <= i < entries.len() && !best_of(entries, k).contains(entries[i]) && 0 <= j
                < best_of(entries, k).len() ==> better(
                #[trigger] best_of(entries, k)[j],
                #[trigger] entries[i],
            ),
    decreases entries.len(),
{
    let best = best_of(entries, k);
    if entries.len() > 0 {
        let earlier = entries.drop_last();
        let e = entries.last();
        let old_best = best_of(earlier, k);
        the_best_are_kept(earlier, k);
        assert forall|i: int| 0 <= i < old_best.len() implies (#[trigger] old_best[i]).1 != e.1 by {
            assert(earlier.contains(old_best[i]));
            let n = choose|n: int| 0 <= n < earlier.len() && earlier[n] == old_best[i];
            assert(entries[n].1 < entries[entries.len() - 1].1);
        }
        lemma_with_entry(old_best, e, k);
        lemma_place(old_best, e);
        let p = place(old_best, e);
        let full = old_best.insert(p, e);
        assert forall|i: int| 0 <= i < best.len() implies entries.contains(#[trigger] best[i]) by {
            if best[i] == e {
                assert(entries[entries.len() - 1] == e);
            } else {
                let m = choose|m: int| 0 <= m < old_best.len() && old_best[m] == best[i];
                assert(earlier.contains(old_best[m]));
                let n = choose|n: int| 0 <= n < earlier.len() && earlier[n] == old_best[m];
                assert(entries[n] == best[i]);
            }
        }
        assert forall|i: int, j: int|
            0 <= i < entries.len() && !best.contains(entries[i]) && 0 <= j < best.len() implies better(
            #[trigger] best[j],
            #[trigger] entries[i],
        ) by {
            let x = entries[i];
            assert(best[j] == full[j]);
            if i == entries.len() - 1 {
                if p < best.len() {
                    assert(best[p] == e);
                }
                assert(p == k && old_best.len() == k);
                assert(full[j] == old_best[j]);
                assert(!better(e, old_best[j]));
            } else {
                assert(x == earlier[i]);
                if old_best.contains(x) {
                    let m = choose|m: int| 0 <= m < old_best.len() && old_best[m] == x;
                    let q = if m < p {
                        m
                    } else {
                        m + 1
                    };
                    assert(full[q] == x);
                    if q < best.len() {
                        assert(best[q] == x);
                    }
                    assert(m == k - 1 && p <= m);
                    if j < p {
                        assert(full[j] == old_best[j]);
                    } else if j > p {
                        assert(full[j] == old_best[j - 1]);
                    } else {
                        assert(better(e, old_best[p]));
                        if m > p {
                            assert(better(old_best[p], old_best[m]));
                        }
                    }
                } else {
                    if j < p {
                        assert(full[j] == old_best[j]);
                        assert(better(old_best[j], earlier[i]));
                    } else if j > p {
                        assert(full[j] == old_best[j - 1]);
                        assert(better(old_best[j - 1], earlier[i]));
                    } else {
                        assert(old_best.len() == k) by {
                            if earlier.len() <= k {
                                lemma_all_kept(earlier, k, i);
                            }
                        }
                        assert(p < k);
                        assert(better(e, old_best[p]));
                        assert(better(old_best[p], earlier[i]));
                    }
                }
            }
        }
    } else {
        assert(ranked(best));
    }
}

/// Where there are no more than `k` entries, all of them are kept.
proof fn lemma_all_kept(entries: Seq<(u32, i64)>, k: int, i: int)
    requires
        0 <= i < entries.len() <= k,
    ensures
        best_of(entries, k).contains(entries[i]),
        best_of(entries, k).len() == entries.len(),
    decreases entries.len(),
{
    let earlier = entries.drop_last();
    let e = entries.last();
    let old_best = best_of(earlier, k);
    lemma_place(old_best, e);
    lemma_best_len(earlier, k);
    let p = place(old_best, e);
    let full = old_best.insert(p, e);
    assert(best_of(entries, k) =~= full);
    if i < entries.len() - 1 {
        lemma_all_kept(earlier, k, i);
        let m = choose|m: int| 0 <= m < old_best.len() && old_best[m] == earlier[i];
        if m < p {
            assert(full[m] == entries[i]);
        } else {
            assert(full[m + 1] == entries[i]);
        }
    } else {
        assert(full[p] == e);
    }
}

/// As many entries are kept as there are, up to `k`.
proof fn lemma_best_len(entries: Seq<(u32, i64)>, k: int)
    requires
        0 < k,
    ensures
        best_of(entries, k).len() == smaller(entries.len() as int, k),
    decreases entries.len(),
{
    if entries.len() > 0 {
        lemma_best_len(entries.drop_last(), k);
        lemma_place(best_of(entries.drop_last(), k), entries.last());
    }
}

/// A block without rows offers nothing.
proof fn lemma_empty_block(offered: Seq<Seq<(u32, i64)>>, scores: Seq<Vec<u32>>, first_id: int)
    requires
        offered.len() == scores.len(),
        forall|q: int| 0 <= q < scores.len() ==> (#[trigger] scores[q])@.len() == 0,
    ensures
        with_block(offered, scores, first_id) == offered,
{
    assert forall|q: int| 0 <= q < offered.len() implies #[trigger] with_block(
        offered,
        scores,
        first_id,
    )[q] == offered[q] by {
        assert(scores[q]@.len() == 0);
        assert(offered[q] + block_entries(scores[q]@, first_id) =~= offered[q]);
    }
    assert(with_block(offered, scores, first_id) =~= offered);
}

/// Where the list is full and an entry with a higher number has no higher score than the last of it,
/// the entry is not kept.
proof fn lemma_loser_changes_nothing(list: Seq<(u32, i64)>, e: (u32, i64), k: int)
    requires
        ranked(list),
        list.len() == k,
        0 < k,
        float_bits::at_most32(e.0, list[k - 1].0),
        forall|i: int| 0 <= i < list.len() ==> (#[trigger] list[i]).1 < e.1,
    ensures
        with_entry(list, e, k) == list,
{
    assert forall|i: int| 0 <= i < k implies !better(e, #[trigger] list[i]) by {
        if i < k - 1 {
            assert(better(list[i], list[k - 1]));
        }
        assert(list[k - 1].1 < e.1);
    }
    lemma_place_is(list, e, k);
    assert(list.insert(k, e).take(k) =~= list);
}

/// The place in a list that binary search finds for an entry.
fn find_place(list: &Vec<(u32, i64)>, e: (u32, i64)) -> (p: usize)
    ensures
        p <= list@.len(),
        ranked(list@) && !float_bits::is_nan32(e.0) ==> p == place(list@, e),
{
    let mut lo: usize = 0;
    let mut hi: usize = list.len();
    while lo < hi
        invariant
            lo <= hi <= list@.len(),
            ranked(list@) && !float_bits::is_nan32(e.0) ==> (forall|i: int|
                0 <= i < lo ==> !better(e, #[trigger] list@[i])) && (forall|i: int|
                hi <= i < list@.len() ==> better(e, #[trigger] list@[i])),
        decreases hi - lo,
    {
        let mid: usize = lo + (hi - lo) / 2;
        let probe: (u32, i64) = list[mid];
        if below32(probe.0, e.0) || (!below32(e.0, probe.0) && e.1 < probe.1) {
            proof {
                if ranked(list@) && !float_bits::is_nan32(e.0) {
                    assert forall|i: int| mid <= i < list@.len() implies better(
                        e,
                        #[trigger] list@[i],
                    ) by {
                        if i > mid {
                            assert(better(list@[mid as int], list@[i]));
                        }
                    }
                }
            }
            hi = mid;
        } else {
            proof {
                if ranked(list@) && !float_bits::is_nan32(e.0) {
                    assert forall|i: int| 0 <= i <= mid implies !better(
                        e,
                        #[trigger] list@[i],
                    ) by {
                        if i < mid {
                            assert(better(list@[i], list@[mid as int]));
                        }
                    }
                }
            }
            lo = mid + 1;
        }
    }
    proof {
        if ranked(list@) && !float_bits::is_nan32(e.0) {
            lemma_place_is(list@, e, lo as int);
        }
    }
    lo
}

/// Whether `after` is `before` with one more entry somewhere, cut to `k`: what can be said of a score
/// that is no number.
pub open spec fn entered(
    before: Seq<(u32, i64)>,
    e: (u32, i64),
    k: int,
    after: Seq<(u32, i64)>,
) -> bool {
    if before.len() == k && float_bits::at_most32(e.0, before[k - 1].0) {
        after == before
    } else {
        exists|p: int|
            0 <= p <= before.len() && after == (#[trigger] before.insert(p, e)).take(
                smaller(before.len() as int + 1, k),
            )
    }
}

/// Offers one entry to a list.
fn offer(list: &mut Vec<(u32, i64)>, e: (u32, i64), k: usize)
    requires
        0 < k,
        old(list)@.len() <= k,
    ensures
        final(list)@.len() <= k,
        entered(old(list)@, e, k as int, final(list)@),
        ranked(old(list)@) && !float_bits::is_nan32(e.0) && (forall|i: int|
            0 <= i < old(list)@.len() ==> (#[trigger] old(list)@[i]).1 < e.1) ==> final(list)@
            == with_entry(old(list)@, e, k as int),
{
    let ghost before = list@;
    if list.len() == k {
        let last: (u32, i64) = list[k - 1];
        if not_above32(e.0, last.0) {
            proof {
                if ranked(before) && !float_bits::is_nan32(e.0) && (forall|i: int|
                    0 <= i < before.len() ==> (#[trigger] before[i]).1 < e.1) {
                    lemma_loser_changes_nothing(before, e, k as int);
                }
            }
            return;
        }
    }
    let p: usize = find_place(list, e);
    list.insert(p, e);
    let ghost full = before.insert(p as int, e);
    assert(list@ =~= full);
    list.truncate(k);
    assert(list@ =~= full.take(smaller(before.len() as int + 1, k as int)));
}

/// The running best matches of each query.
pub struct TopK {
    k: usize,
    dim: usize,
    best: Vec<Vec<(u32, i64)>>,
    next_expected_id: i64,
}

impl TopK {
    /// How many matches are kept.
    pub closed spec fn depth(&self) -> int {
        self.k as int
    }

    /// The number of components of a vector.
    pub closed spec fn dimension(&self) -> int {
        self.dim as int
    }

    /// The matches of each query so far.
    pub closed spec fn best(&self) -> Seq<Seq<(u32, i64)>> {
        Seq::new(self.best@.len(), |q: int| self.best@[q]@)
    }

    /// The number that the next block begins with, at least.
    pub closed spec fn next_id(&self) -> int {
        self.next_expected_id as int
    }

    /// Vectors have components, and no list is longer than it may be.
    pub open spec fn well_formed(&self) -> bool {
        &&& 0 <= self.depth() <= usize::MAX
        &&& 0 < self.dimension() <= usize::MAX
        &&& forall|q: int|
            0 <= q < self.best().len() ==> (#[trigger] self.best()[q]).len() <= self.depth()
    }

    /// Whether the matches are the best of the entries that each query was offered.
    pub open spec fn holds_best_of(&self, offered: Seq<Seq<(u32, i64)>>) -> bool {
        &&& offered.len() == self.best().len()
        &&& forall|q: int|
            0 <= q < offered.len() ==> #[trigger] self.best()[q] == best_of(
                offered[q],
                self.depth(),
            ) && in_order(offered[q]) && (offered[q].len() > 0 ==> offered[q].last().1
                < self.next_id())
    }

    /// Begins with the queries of a flattened matrix of `values` values.
    pub fn new(values: usize, dim: usize, k: usize) -> (r: Result<Self, String>)
        ensures
            dim == 0 || values as int % dim as int != 0 ==> (r matches Err(e) && e@
                == "query matrix of "@ + text::decimal(values as nat)
                + " values is not a multiple of dim "@ + text::decimal(dim as nat)),
            dim > 0 && values as int % dim as int == 0 ==> (r matches Ok(t) && t.well_formed()
                && t.depth() == k && t.dimension() == dim && t.next_id() == i64::MIN
                && t.best().len() == values as int / dim as int && forall|q: int|
                0 <= q < t.best().len() ==> (#[trigger] t.best()[q]).len() == 0),
    {
        if dim == 0 || values % dim != 0 {
            let mut e: String = "query matrix of ".to_owned();
            e.append(decimal_text(values as u64).as_str());
            e.append(" values is not a multiple of dim ");
            e.append(decimal_text(dim as u64).as_str());
            return Err(e);
        }
        let n: usize = values / dim;
        let mut best: Vec<Vec<(u32, i64)>> = Vec::new();
        let mut i: usize = 0;
        while i < n
            invariant
                i <= n,
                best@.len() == i,
                forall|q: int| 0 <= q < i ==> (#[trigger] best@[q])@.len() == 0,
            decreases n - i,
        {
            best.push(Vec::new());
            i += 1;
        }
        let t: TopK = TopK { k, dim, best, next_expected_id: i64::MIN };
        assert(forall|q: int| 0 <= q < t.best().len() ==> (#[trigger] t.best()[q]) == t.best@[q]@);
        Ok(t)
    }

    /// The number of queries.
    pub fn n_queries(&self) -> (n: usize)
        ensures
            n == self.best().len(),
    {
        self.best.len()
    }

    /// The error that a block gets, where it gets one: it begins before the last one ended, or does
    /// not hold whole vectors.
    pub open spec fn block_error(&self, values: nat, first_id: int) -> Option<Seq<char>> {
        if first_id < self.next_id() {
            Some(
                "blocks must arrive in ascending id order: got a block starting at "@
                    + text::signed_decimal(first_id) + " after one ending at "@
                    + text::signed_decimal(self.next_id())
                    + ". The id tie-break depends on this, so accepting it would change the published ranking without changing any recall number."@,
            )
        } else if values as int % self.dimension() != 0 {
            Some(
                "passage block of "@ + text::decimal(values) + " values is not a multiple of dim "@
                    + text::decimal(self.dimension() as nat),
            )
        } else {
            None
        }
    }

    /// Offers the rows of a block of `values` values to every query. `scores[q]` holds the scores of
    /// the rows for query `q`; the first row has the number `first_id`. Blocks must come in the order
    /// of their numbers, or equal scores would not rank by number.
    pub fn add_block(&mut self, values: usize, first_id: i64, scores: &[Vec<u32>]) -> (r: Result<
        (),
        String,
    >)
        requires
            old(self).well_formed(),
            first_id + values as int / old(self).dimension() <= i64::MAX,
            old(self).block_error(values as nat, first_id as int) is None ==> scores@.len() == old(self).best().len() && forall|q: int|
                0 <= q < scores@.len() ==> (#[trigger] scores@[q])@.len() == values as int / old(self).dimension(),
            old(self).block_error(values as nat, first_id as int) is None ==> old(self).depth() > 0
                || values == 0,
        ensures
            final(self).well_formed(),
            final(self).depth() == old(self).depth(),
            final(self).dimension() == old(self).dimension(),
            final(self).best().len() == old(self).best().len(),
            final(self).next_id() == if first_id < old(self).next_id() {
                old(self).next_id()
            } else {
                first_id + values as int / old(self).dimension()
            },
            match old(self).block_error(values as nat, first_id as int) {
                Some(e) => r matches Err(m) && m@ == e && final(self).best() == old(self).best(),
                None => r is Ok,
            },
            r is Ok ==> forall|offered: Seq<Seq<(u32, i64)>>|
                #[trigger] old(self).holds_best_of(offered) && (forall|q: int, i: int|
                    0 <= q < scores@.len() && 0 <= i < scores@[q]@.len()
                        ==> !float_bits::is_nan32(#[trigger] scores@[q]@[i])) ==> final(self).holds_best_of(
                    with_block(offered, scores@, first_id as int),
                ),
            r is Ok ==> forall|q: int|
                0 <= q < scores@.len() ==> #[trigger] reached(
                    old(self).best()[q],
                    block_entries(scores@[q]@, first_id as int),
                    old(self).depth(),
                    final(self).best()[q],
                ),
    {
        let ghost start = *self;
        if first_id < self.next_expected_id {
            let mut e: String =
                "blocks must arrive in ascending id order: got a block starting at ".to_owned();
            e.append(signed_decimal_text(first_id).as_str());
            e.append(" after one ending at ");
            e.append(signed_decimal_text(self.next_expected_id).as_str());
            e.append(
                ". The id tie-break depends on this, so accepting it would change the published ranking without changing any recall number.",
            );
            return Err(e);
        }
        let rows: usize = values / self.dim;
        proof {
            assert(0 <= values as int / self.dim as int <= values) by (nonlinear_arith)
                requires
                    self.dim > 0,
                    values >= 0,
            ;
        }
        self.next_expected_id = (first_id as i128 + rows as i128) as i64;
        assert(self.best() =~= start.best());
        if values % self.dim != 0 {
            let mut e: String = "passage block of ".to_owned();
            e.append(decimal_text(values as u64).as_str());
            e.append(" values is not a multiple of dim ");
            e.append(decimal_text(self.dim as u64).as_str());
            return Err(e);
        }
        if values == 0 {
            proof {
                let now = *self;
                assert(0int / self.dim as int == 0) by (nonlinear_arith)
                    requires
                        self.dim > 0,
                ;
                assert(now.next_id() == first_id);
                assert(now.best() == start.best());
                assert forall|offered: Seq<Seq<(u32, i64)>>|
                    #[trigger] start.holds_best_of(offered) implies now.holds_best_of(
                    with_block(offered, scores@, first_id as int),
                ) by {
                    lemma_empty_block(offered, scores@, first_id as int);
                    assert forall|q: int| 0 <= q < offered.len() implies #[trigger] now.best()[q]
                        == best_of(offered[q], now.depth()) && in_order(offered[q]) && (
                    offered[q].len() > 0 ==> offered[q].last().1 < now.next_id()) by {
                        assert(start.best()[q] == best_of(offered[q], start.depth()));
                        assert(start.next_id() <= now.next_id());
                    }
                    assert(offered.len() == now.best().len());
                    assert(now.holds_best_of(offered));
                }
            }
            return Ok(());
        }
        let ghost k = self.k as int;
        assert forall|j: int| 0 <= j < scores@.len() implies (#[trigger] self.best@[j])@.len()
            <= k by {
            assert(start.best()[j] == self.best@[j]@);
        }
        let ghost clean = forall|q: int, i: int|
            0 <= q < scores@.len() && 0 <= i < scores@[q]@.len() ==> !float_bits::is_nan32(
                #[trigger] scores@[q]@[i],
            );
        let mut q: usize = 0;
        while q < scores.len()
            invariant
                q <= scores@.len(),
                start.well_formed(),
                self.k == start.k,
                self.dim == start.dim,
                k == start.k,
                0 < k,
                self.next_expected_id == first_id + rows,
                start.next_expected_id <= first_id,
                first_id + rows <= i64::MAX,
                self.best@.len() == start.best@.len() == scores@.len(),
                forall|j: int| 0 <= j < scores@.len() ==> (#[trigger] scores@[j])@.len() == rows,
                forall|j: int| 0 <= j < scores@.len() ==> (#[trigger] self.best@[j])@.len() <= k,
                forall|j: int| q <= j < scores@.len() ==> #[trigger] self.best@[j] == start.best@[j],
                clean == forall|j: int, i: int|
                    0 <= j < scores@.len() && 0 <= i < scores@[j]@.len() ==> !float_bits::is_nan32(
                        #[trigger] scores@[j]@[i],
                    ),
                forall|j: int|
                    0 <= j < q ==> reached(
                        start.best@[j]@,
                        block_entries(scores@[j]@, first_id as int),
                        k,
                        (#[trigger] self.best@[j])@,
                    ),
                forall|j: int, offered: Seq<(u32, i64)>|
                    0 <= j < q && clean && in_order(offered) && (offered.len() > 0
                        ==> offered.last().1 < start.next_expected_id) && start.best@[j]@
                        == #[trigger] best_of(offered, k) ==> (#[trigger] self.best@[j])@ == best_of(
                        offered + block_entries(scores@[j]@, first_id as int),
                        k,
                    ),
            decreases scores@.len() - q,
        {
            let mut list: Vec<(u32, i64)> = Vec::new();
            assert(start.best()[q as int] == start.best@[q as int]@);
            let ghost before = self.best@[q as int]@;
            std::mem::swap(&mut list, &mut self.best[q]);
            assert(list@ == before);
            offer_all(&mut list, &scores[q], first_id, self.k);
            proof {
                let entries = block_entries(scores@[q as int]@, first_id as int);
                assert forall|offered: Seq<(u32, i64)>|
                    clean && in_order(offered) && (offered.len() > 0 ==> offered.last().1
                        < start.next_expected_id) && before == #[trigger] best_of(
                        offered,
                        k,
                    ) implies list@ == best_of(offered + entries, k) by {
                    lemma_offered_in_order(offered, scores@[q as int]@, first_id as int);
                    lemma_offered_all(offered, entries, k, before, list@);
                }
            }
            self.best.set(q, list);
            q += 1;
        }
        proof {
            assert forall|j: int| 0 <= j < self.best().len() implies (#[trigger] self.best()[j]).len()
                <= self.depth() by {
                assert(self.best()[j] == self.best@[j]@);
            }
            let now = *self;
            assert forall|offered: Seq<Seq<(u32, i64)>>|
                #[trigger] start.holds_best_of(offered) && clean implies now.holds_best_of(
                with_block(offered, scores@, first_id as int),
            ) by {
                let all = with_block(offered, scores@, first_id as int);
                assert forall|j: int| 0 <= j < all.len() implies #[trigger] now.best()[j] == best_of(
                    all[j],
                    now.depth(),
                ) && in_order(all[j]) && (all[j].len() > 0 ==> all[j].last().1
                    < now.next_id()) by {
                    assert(start.best()[j] == start.best@[j]@);
                    assert(start.best()[j] == best_of(offered[j], k));
                    assert(now.best()[j] == self.best@[j]@);
                    lemma_offered_in_order(offered[j], scores@[j]@, first_id as int);
                }
                assert(offered.len() == start.best().len());
                assert(start.best().len() == start.best@.len());
                assert(all.len() == now.best().len());
                assert(now.holds_best_of(all));
            }
            assert forall|j: int| 0 <= j < scores@.len() implies #[trigger] reached(
                start.best()[j],
                block_entries(scores@[j]@, first_id as int),
                k,
                self.best()[j],
            ) by {
                assert(start.best()[j] == start.best@[j]@);
                assert(self.best()[j] == self.best@[j]@);
            }
        }
        Ok(())
    }

    /// The matches of each query, the best first.
    pub fn finish(self) -> (r: Vec<Vec<(u32, i64)>>)
        ensures
            r@.len() == self.best().len(),
            forall|q: int| 0 <= q < r@.len() ==> (#[trigger] r@[q])@ == self.best()[q],
    {
        self.best
    }
}

/// Whether a list becomes another by being offered one entry.
pub open spec fn step(
    before: Seq<(u32, i64)>,
    e: (u32, i64),
    k: int,
    after: Seq<(u32, i64)>,
) -> bool {
    &&& before.len() <= k
    &&& entered(before, e, k, after)
    &&& ranked(before) && !float_bits::is_nan32(e.0) && (forall|i: int|
        0 <= i < before.len() ==> (#[trigger] before[i]).1 < e.1) ==> after == with_entry(
        before,
        e,
        k,
    )
}

/// Whether a list becomes another by being offered entries one by one.
pub open spec fn reached(
    before: Seq<(u32, i64)>,
    entries: Seq<(u32, i64)>,
    k: int,
    after: Seq<(u32, i64)>,
) -> bool
    decreases entries.len(),
{
    if entries.len() == 0 {
        after == before
    } else {
        exists|middle: Seq<(u32, i64)>|
            reached(before, entries.drop_last(), k, middle) && #[trigger] step(
                middle,
                entries.last(),
                k,
                after,
            )
    }
}

/// Offers the rows of a block to a list.
fn offer_all(list: &mut Vec<(u32, i64)>, scores: &Vec<u32>, first_id: i64, k: usize)
    requires
        0 < k,
        old(list)@.len() <= k,
        first_id + scores@.len() <= i64::MAX,
    ensures
        final(list)@.len() <= k,
        reached(
            old(list)@,
            block_entries(scores@, first_id as int),
            k as int,
            final(list)@,
        ),
{
    let ghost before = list@;
    let ghost entries = block_entries(scores@, first_id as int);
    let mut row: usize = 0;
    assert(entries.take(0) =~= Seq::empty());
    while row < scores.len()
        invariant
            row <= scores@.len(),
            0 < k,
            list@.len() <= k,
            first_id + scores@.len() <= i64::MAX,
            entries == block_entries(scores@, first_id as int),
            reached(before, entries.take(row as int), k as int, list@),
        decreases scores@.len() - row,
    {
        let ghost middle = list@;
        let id: i64 = (first_id as i128 + row as i128) as i64;
        let e: (u32, i64) = (scores[row], id);
        proof {
            assert(entries.take(row + 1).drop_last() =~= entries.take(row as int));
            assert(entries.take(row + 1).last() == e);
        }
        offer(list, e, k);
        assert(step(middle, e, k as int, list@));
        row += 1;
    }
    assert(entries.take(row as int) =~= entries);
}

/// Entries of a block behind those of earlier blocks are in order.
proof fn lemma_offered_in_order(offered: Seq<(u32, i64)>, scores: Seq<u32>, first_id: int)
    requires
        in_order(offered),
        offered.len() > 0 ==> offered.last().1 < first_id,
        i64::MIN <= first_id,
        first_id + scores.len() <= i64::MAX,
        forall|i: int| 0 <= i < scores.len() ==> !float_bits::is_nan32(#[trigger] scores[i]),
    ensures
        in_order(offered + block_entries(scores, first_id)),
        ({
            let all = offered + block_entries(scores, first_id);
            all.len() > 0 && scores.len() > 0 ==> all.last().1 < first_id + scores.len()
        }),
{
    let all = offered + block_entries(scores, first_id);
    let n = offered.len() as int;
    assert forall|i: int| 0 <= i < all.len() implies !float_bits::is_nan32(
        (#[trigger] all[i]).0,
    ) by {
        if i < n {
            assert(all[i] == offered[i]);
        } else {
            assert(all[i].0 == scores[i - n]);
        }
    }
    assert forall|i: int, j: int| 0 <= i < j < all.len() implies (#[trigger] all[i]).1
        < (#[trigger] all[j]).1 by {
        if j < n {
            assert(all[i] == offered[i] && all[j] == offered[j]);
        } else if i < n {
            assert(all[i] == offered[i]);
            if i < n - 1 {
                assert(offered[i].1 < offered[n - 1].1);
            }
        }
    }
}

/// A list that is the best of what was offered stays so while entries are offered in order.
proof fn lemma_offered_all(
    offered: Seq<(u32, i64)>,
    entries: Seq<(u32, i64)>,
    k: int,
    before: Seq<(u32, i64)>,
    after: Seq<(u32, i64)>,
)
    requires
        0 < k,
        in_order(offered + entries),
        before == best_of(offered, k),
        reached(before, entries, k, after),
    ensures
        after == best_of(offered + entries, k),
    decreases entries.len(),
{
    if entries.len() == 0 {
        assert(offered + entries =~= offered);
    } else {
        let earlier = entries.drop_last();
        let e = entries.last();
        let all = offered + entries;
        let middle = choose|middle: Seq<(u32, i64)>|
            reached(before, earlier, k, middle) && #[trigger] step(middle, e, k, after);
        let shorter = offered + earlier;
        assert(all.drop_last() =~= shorter);
        assert(all.last() == e);
        assert forall|i: int| 0 <= i < shorter.len() implies !float_bits::is_nan32(
            (#[trigger] shorter[i]).0,
        ) by {
            assert(shorter[i] == all[i]);
        }
        assert forall|i: int, j: int| 0 <= i < j < shorter.len() implies (#[trigger] shorter[i]).1
            < (#[trigger] shorter[j]).1 by {
            assert(shorter[i] == all[i] && shorter[j] == all[j]);
        }
        lemma_offered_all(offered, earlier, k, before, middle);
        the_best_are_kept(shorter, k);
        assert forall|i: int| 0 <= i < middle.len() implies (#[trigger] middle[i]).1 < e.1 by {
            assert(shorter.contains(middle[i]));
            let n = choose|n: int| 0 <= n < shorter.len() && shorter[n] == middle[i];
            assert(all[n].1 < all[all.len() - 1].1);
        }
        assert(!float_bits::is_nan32(all[all.len() - 1].0));
    }
}

} // verus!
