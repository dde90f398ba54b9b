//! How much ground truth a dataset has: the widths of its rows, which bound what any engine can reach.
use std::collections::HashSet;

use vstd::prelude::*;

use crate::json::{self, count_value, new_members, put_member, Json, JsonView};
use crate::metrics::{self, truth_set};
use crate::text::{self, decimal_text};

verus! {

/// The rows of ground truth, one for each query.
pub struct GroundTruthProfile {
    rows: Vec<Vec<i64>>,
}

/// The widths of the rows at one number of results.
#[derive(Debug, Clone, Copy, PartialEq, Eq, Structural)]
pub struct GroundTruthStats {
    /// How many queries there are.
    pub queries: usize,
    /// The number of results that the widths are for.
    pub top: usize,
    /// The sum of the widths. By `queries` it is the mean width, and that by `top` the largest value
    /// that a recall by `top` can take.
    pub width_sum: u128,
    /// The narrowest row.
    pub min_width: usize,
    /// How many rows are narrower than `top`.
    pub queries_below_top: usize,
}

/// The width of a row: how many valid identifiers it has among the first `top`, each counted once.
pub open spec fn width(row: Seq<i64>, top: nat) -> nat {
    metrics::truth(row, top).len()
}

/// The sum of the widths of the first `n` rows.
pub open spec fn width_sum(rows: Seq<Vec<i64>>, top: nat, n: int) -> int
    decreases n,
{
    if n <= 0 {
        0
    } else {
        width_sum(rows, top, n - 1) + width(rows[n - 1]@, top)
    }
}

/// How many of the first `n` rows are narrower than `top`.
pub open spec fn narrow_rows(rows: Seq<Vec<i64>>, top: nat, n: int) -> int
    decreases n,
{
    if n <= 0 {
        0
    } else {
        narrow_rows(rows, top, n - 1) + if width(rows[n - 1]@, top) < top {
            1int
        } else {
            0int
        }
    }
}

/// The width of the narrowest of the first `n` rows.
pub open spec fn least_width(rows: Seq<Vec<i64>>, top: nat, n: int) -> int
    decreases n,
{
    if n <= 1 {
        width(rows[0]@, top) as int
    } else {
        let w = width(rows[n - 1]@, top);
        if w < least_width(rows, top, n - 1) {
            w as int
        } else {
            least_width(rows, top, n - 1)
        }
    }
}

/// No row is wider than what is asked for.
pub proof fn widths_are_bounded(row: Seq<i64>, top: nat)
    ensures
        width(row, top) <= top,
{
    let taken = metrics::first_of(metrics::valid_ids(row), top);
    taken.lemma_cardinality_of_set();
}

/// The width of a row.
fn valid_width(row: &[i64], top: usize) -> (r: usize)
    ensures
        r == width(row@, top as nat),
        r <= top,
{
    broadcast use vstd::std_specs::hash::group_hash_axioms;

    let set: HashSet<i64> = truth_set(row, top);
    proof {
        widths_are_bounded(row@, top as nat);
    }
    set.len()
}

/// What reads the queries of a dataset.
#[derive(Debug, Clone, Copy, PartialEq, Eq, Structural)]
pub enum QueryReader {
    Hybrid,
    Sparse,
    Multivector,
    Dense,
}

/// What reads the queries of a dataset of a kind. A hybrid dataset is read as such whatever else it is.
pub open spec fn reader_for(is_hybrid: bool, is_sparse: bool, is_multivector: bool) -> QueryReader {
    if is_hybrid {
        QueryReader::Hybrid
    } else if is_sparse {
        QueryReader::Sparse
    } else if is_multivector {
        QueryReader::Multivector
    } else {
        QueryReader::Dense
    }
}

/// What reads the queries of a dataset of a kind.
pub fn query_reader(is_hybrid: bool, is_sparse: bool, is_multivector: bool) -> (r: QueryReader)
    ensures
        r == reader_for(is_hybrid, is_sparse, is_multivector),
{
    if is_hybrid {
        QueryReader::Hybrid
    } else if is_sparse {
        QueryReader::Sparse
    } else if is_multivector {
        QueryReader::Multivector
    } else {
        QueryReader::Dense
    }
}

impl GroundTruthProfile {
    /// The rows.
    pub closed spec fn rows(&self) -> Seq<Vec<i64>> {
        self.rows@
    }

    /// The profile of the ground truth of a dataset: its rows as one reader gives them, the one for its
    /// kind, or why they could not be read.
    pub fn load(
        is_hybrid: bool,
        is_sparse: bool,
        is_multivector: bool,
        read: impl FnOnce(QueryReader) -> Result<Vec<Vec<i64>>, String>,
    ) -> (r: Result<Self, String>)
        requires
            call_requires(read, (reader_for(is_hybrid, is_sparse, is_multivector),)),
        ensures
            exists|out: Result<Vec<Vec<i64>>, String>|
                #[trigger] call_ensures(
                    read,
                    (reader_for(is_hybrid, is_sparse, is_multivector),),
                    out,
                ) && Self::holds(out, r),
    {
        let out: Result<Vec<Vec<i64>>, String> = read(
            query_reader(is_hybrid, is_sparse, is_multivector),
        );
        let ghost given = out;
        let r: Result<Self, String> = Self::from_read(out);
        assert(Self::holds(given, r));
        r
    }

    /// Whether a profile holds all rows that were read, in their order; where they could not be read,
    /// whether the reason is handed on.
    pub open spec fn holds(
        read: Result<Vec<Vec<i64>>, String>,
        profile: Result<Self, String>,
    ) -> bool {
        match read {
            Ok(rows) => profile matches Ok(p) && p.rows() == rows@,
            Err(e) => profile matches Err(m) && m@ == e@,
        }
    }

    /// The profile of what was read of a dataset: the rows, or why they could not be read.
    pub fn from_read(read: Result<Vec<Vec<i64>>, String>) -> (r: Result<Self, String>)
        ensures
            Self::holds(read, r),
    {
        match read {
            Ok(rows) => Ok(Self::from_rows(rows)),
            Err(e) => Err(e),
        }
    }

    /// The profile of rows.
    pub fn from_rows(rows: Vec<Vec<i64>>) -> (r: Self)
        ensures
            r.rows() == rows@,
    {
        GroundTruthProfile { rows }
    }

    /// The length of the first row, which stands for the number of results where none is set.
    pub fn first_row_len(&self) -> (r: Option<usize>)
        ensures
            self.rows().len() == 0 ==> r is None,
            self.rows().len() > 0 ==> r == Some(self.rows()[0].len()),
    {
        if self.rows.len() == 0 {
            None
        } else {
            Some(self.rows[0].len())
        }
    }

    /// The widths at `top` results. There are none where there is nothing to look at.
    pub fn stats(&self, top: usize) -> (r: Option<GroundTruthStats>)
        ensures
            top == 0 || self.rows().len() == 0 ==> r is None,
            top > 0 && self.rows().len() > 0 ==> {
                let n = self.rows().len() as int;
                &&& r matches Some(s)
                &&& s.queries == n
                &&& s.top == top
                &&& s.width_sum == width_sum(self.rows(), top as nat, n)
                &&& s.min_width == least_width(self.rows(), top as nat, n)
                &&& s.queries_below_top == narrow_rows(self.rows(), top as nat, n)
            },
    {
        let count: usize = self.rows.len();
        if top == 0 || count == 0 {
            return None;
        }
        let mut sum: u128 = 0;
        let mut least: usize = top;
        let mut below: usize = 0;
        let mut i: usize = 0;
        while i < count
            invariant
                i <= count,
                count == self.rows@.len(),
                count > 0,
                top > 0,
                sum == width_sum(self.rows@, top as nat, i as int),
                sum <= i * top,
                i > 0 ==> least == least_width(self.rows@, top as nat, i as int),
                i == 0 ==> least == top,
                below == narrow_rows(self.rows@, top as nat, i as int),
                below <= i,
            decreases count - i,
        {
            let w: usize = valid_width(self.rows[i].as_slice(), top);
            proof {
                assert(i * top + top == (i + 1) * top) by (nonlinear_arith);
                assert((i + 1) * top <= 0xffff_ffff_ffff_ffff * 0xffff_ffff_ffff_ffff)
                    by (nonlinear_arith)
                    requires
                        0 <= i + 1 <= 0xffff_ffff_ffff_ffff,
                        0 <= top <= 0xffff_ffff_ffff_ffff,
                ;
            }
            sum = sum + w as u128;
            if w < least {
                least = w;
            }
            if w < top {
                below += 1;
            }
            i += 1;
        }
        Some(
            GroundTruthStats {
                queries: count,
                top,
                width_sum: sum,
                min_width: least,
                queries_below_top: below,
            },
        )
    }
}

/// The numbers of a profile as text: the target, the mean width with two decimals, and the ceiling and
/// the target with four.
pub struct ShownStats {
    pub target: String,
    pub mean_width: String,
    pub ceiling: String,
}

/// What is said of a target that is above the ceiling.
pub open spec fn unreachable_note(s: GroundTruthStats, shown: ShownStats) -> Seq<char> {
    "target precision "@ + shown.target@ + " is above the ceiling this dataset allows: "@
        + text::decimal(s.queries_below_top as nat) + " of "@ + text::decimal(s.queries as nat)
        + " queries have fewer than top="@ + text::decimal(s.top as nat)
        + " valid ground-truth neighbours (mean "@ + shown.mean_width@ + ", min "@ + text::decimal(
        s.min_width as nat,
    ) + "), so mean_precision_at_returned cannot exceed "@ + shown.ceiling@
        + " for an engine that returns a full page of "@ + text::decimal(s.top as nat)
        + " results. Raising the calibrated parameter cannot close that gap — it will converge on the maximum value tried. Lower calibration_precision to <= "@
        + shown.ceiling@
        + ", lower `top`, or calibrate against a dataset with full-width ground truth. (A filtered query that returns fewer than "@
        + text::decimal(s.top as nat)
        + " results can score above this ceiling, so treat it as an estimate.)"@
}

impl GroundTruthStats {
    /// Why a target cannot be reached on this dataset, where it cannot. `above_ceiling` says whether the
    /// target is above what the widths allow.
    pub fn unreachable_target_note(&self, above_ceiling: bool, shown: &ShownStats) -> (r: Option<
        String,
    >)
        ensures
            !above_ceiling ==> r is None,
            above_ceiling ==> (r matches Some(m) && m@ == unreachable_note(*self, *shown)),
    {
        if !above_ceiling {
            return None;
        }
        let top: String = decimal_text(self.top as u64);
        let mut m: String = "target precision ".to_owned();
        m.append(shown.target.as_str());
        m.append(" is above the ceiling this dataset allows: ");
        m.append(decimal_text(self.queries_below_top as u64).as_str());
        m.append(" of ");
        m.append(decimal_text(self.queries as u64).as_str());
        m.append(" queries have fewer than top=");
        m.append(top.as_str());
        m.append(" valid ground-truth neighbours (mean ");
        m.append(shown.mean_width.as_str());
        m.append(", min ");
        m.append(decimal_text(self.min_width as u64).as_str());
        m.append("), so mean_precision_at_returned cannot exceed ");
        m.append(shown.ceiling.as_str());
        m.append(" for an engine that returns a full page of ");
        m.append(top.as_str());
        m.append(
            " results. Raising the calibrated parameter cannot close that gap — it will converge on the maximum value tried. Lower calibration_precision to <= ",
        );
        m.append(shown.ceiling.as_str());
        m.append(
            ", lower `top`, or calibrate against a dataset with full-width ground truth. (A filtered query that returns fewer than ",
        );
        m.append(top.as_str());
        m.append(" results can score above this ceiling, so treat it as an estimate.)");
        Some(m)
    }

    /// Whether a recall by the ground truth is the same as one by `top`: every row is wide enough.
    pub fn recall_matches_upstream(&self) -> (r: bool)
        ensures
            r == (self.queries_below_top == 0),
    {
        self.queries_below_top == 0
    }

    /// The profile as JSON, with the mean width and the ceiling given as JSON numbers.
    pub open spec fn json(&self, mean_width: JsonView, ceiling: JsonView) -> JsonView {
        let a = json::put(json::no_members(), "queries"@, json::count_view(self.queries as u64));
        let b = json::put(a, "top"@, json::count_view(self.top as u64));
        let c = json::put(b, "mean_valid_neighbours_per_query"@, mean_width);
        let d = json::put(
            c,
            "min_valid_neighbours_per_query"@,
            json::count_view(self.min_width as u64),
        );
        let e = json::put(
            d,
            "queries_with_fewer_than_top_neighbours"@,
            json::count_view(self.queries_below_top as u64),
        );
        JsonView::Object(json::put(e, "recall_at_top_ceiling"@, ceiling))
    }

    /// The profile as JSON.
    pub fn to_json(&self, mean_width: &Json, ceiling: &Json) -> (r: Json)
        ensures
            r@ == self.json(mean_width@, ceiling@),
    {
        broadcast use json::lemma_object_view;

        let mut members: Vec<(String, Json)> = new_members();
        put_member(&mut members, "queries", count_value(self.queries as u64));
        put_member(&mut members, "top", count_value(self.top as u64));
        put_member(&mut members, "mean_valid_neighbours_per_query", mean_width.clone());
        put_member(
            &mut members,
            "min_valid_neighbours_per_query",
            count_value(self.min_width as u64),
        );
        put_member(
            &mut members,
            "queries_with_fewer_than_top_neighbours",
            count_value(self.queries_below_top as u64),
        );
        put_member(&mut members, "recall_at_top_ceiling", ceiling.clone());
        Json::Object(members)
    }
}

/// The widths of a profile are what the recall of its queries divides by. A row that is as wide as `top`
/// has one recall, by the ground truth and by `top`; one without width has nothing to find, and its
/// recall is full.
pub proof fn widths_are_the_recall_denominators(
    results: Seq<i64>,
    row: Seq<i64>,
    top: nat,
    m: metrics::QueryMetrics,
)
    requires
        metrics::measures(results, row, top, m),
    ensures
        top > 0 && width(row, top) > 0 ==> m.recall.denominator == width(row, top),
        top > 0 && width(row, top) == top ==> m.recall == m.recall_at_top,
        top == 0 || width(row, top) == 0 ==> m.recall.numerator == 1 && m.recall.denominator == 1,
        top > 0 ==> m.ideal_hits == width(row, top),
{
}

/// The recall by `top` is bounded by the ceiling: the hits of all queries together are no more than the
/// sum of the widths.
pub proof fn the_ceiling_bounds_the_hits(
    rows: Seq<Vec<i64>>,
    results: Seq<Seq<i64>>,
    top: nat,
    n: int,
)
    requires
        0 <= n <= rows.len(),
        results.len() == rows.len(),
    ensures
        hit_sum(rows, results, top, n) <= width_sum(rows, top, n),
        width_sum(rows, top, n) <= n * top,
    decreases n,
{
    if n > 0 {
        the_ceiling_bounds_the_hits(rows, results, top, n - 1);
        metrics::hits_are_bounded(results[n - 1], rows[n - 1]@, top);
        widths_are_bounded(rows[n - 1]@, top);
        assert((n - 1) * top + top == n * top) by (nonlinear_arith);
    }
}

/// The hits of the first `n` queries together.
pub open spec fn hit_sum(
    rows: Seq<Vec<i64>>,
    results: Seq<Seq<i64>>,
    top: nat,
    n: int,
) -> int
    decreases n,
{
    if n <= 0 {
        0
    } else {
        hit_sum(rows, results, top, n - 1) + metrics::hits_of(results[n - 1], rows[n - 1]@, top).len()
    }
}

/// Where no row is narrower than `top`, every row is as wide as `top`, and recall by the ground truth
/// and recall by `top` have the same denominator in every query.
pub proof fn full_width_makes_recall_comparable(rows: Seq<Vec<i64>>, top: nat, n: int, i: int)
    requires
        0 <= i < n <= rows.len(),
        narrow_rows(rows, top, n) == 0,
    ensures
        metrics::truth(rows[i]@, top).len() == top,
    decreases n,
{
    lemma_narrow_rows(rows, top, n - 1);
    widths_are_bounded(rows[n - 1]@, top);
    if i < n - 1 {
        full_width_makes_recall_comparable(rows, top, n - 1, i);
    }
}

/// A count is not negative.
proof fn lemma_narrow_rows(rows: Seq<Vec<i64>>, top: nat, n: int)
    ensures
        narrow_rows(rows, top, n) >= 0,
    decreases n,
{
    if n > 0 {
        lemma_narrow_rows(rows, top, n - 1);
    }
}

/// The narrowest row is one of the rows, and no row is narrower.
pub proof fn the_least_width_is_that_of_the_narrowest_row(rows: Seq<Vec<i64>>, top: nat, n: int, i: int) -> (
least: int)
    requires
        0 <= i < n <= rows.len(),
    ensures
        0 <= least < n,
        least_width(rows, top, n) == metrics::truth(rows[least]@, top).len(),
        least_width(rows, top, n) <= metrics::truth(rows[i]@, top).len(),
    decreases n,
{
    if n == 1 {
        0
    } else {
        let w = width(rows[n - 1]@, top) as int;
        let earlier = the_least_width_is_that_of_the_narrowest_row(
            rows,
            top,
            n - 1,
            if i < n - 1 {
                i
            } else {
                0
            },
        );
        if w < least_width(rows, top, n - 1) {
            n - 1
        } else {
            earlier
        }
    }
}

/// The places of the rows among the first `n` that have fewer than `top` valid identifiers.
pub open spec fn places_of_narrow_rows(rows: Seq<Vec<i64>>, top: nat, n: int) -> Set<int> {
    Set::new(|i: int| 0 <= i < n && metrics::truth(rows[i]@, top).len() < top)
}

/// Every row that has too few is counted, once, and no other.
pub proof fn every_narrow_row_is_counted(rows: Seq<Vec<i64>>, top: nat, n: int)
    requires
        0 <= n <= rows.len(),
    ensures
        places_of_narrow_rows(rows, top, n).finite(),
        narrow_rows(rows, top, n) == places_of_narrow_rows(rows, top, n).len(),
    decreases n,
{
    let now = places_of_narrow_rows(rows, top, n);
    if n == 0 {
        assert(now =~= Set::empty());
    } else {
        every_narrow_row_is_counted(rows, top, n - 1);
        let earlier = places_of_narrow_rows(rows, top, n - 1);
        if width(rows[n - 1]@, top) < top {
            assert(now =~= earlier.insert(n - 1));
        } else {
            assert(now =~= earlier);
        }
    }
}

/// The widths of rows add up: those of two stretches together are the sum of both, and one row adds its
/// own.
pub proof fn widths_add_up(a: Seq<Vec<i64>>, b: Seq<Vec<i64>>, row: Vec<i64>, top: nat)
    ensures
        width_sum(a + b, top, (a + b).len() as int) == width_sum(a, top, a.len() as int) + width_sum(
            b,
            top,
            b.len() as int,
        ),
        width_sum(seq![row], top, 1) == metrics::truth(row@, top).len(),
{
    lemma_widths_of_front(a + b, a, top, a.len() as int);
    lemma_widths_behind(a, b, top, b.len() as int);
    assert(width_sum(seq![row], top, 0) == 0);
}

/// The widths of a front are those of its rows.
proof fn lemma_widths_of_front(rows: Seq<Vec<i64>>, front: Seq<Vec<i64>>, top: nat, n: int)
    requires
        0 <= n <= front.len() <= rows.len(),
        forall|i: int| 0 <= i < front.len() ==> rows[i] == #[trigger] front[i],
    ensures
        width_sum(rows, top, n) == width_sum(front, top, n),
    decreases n,
{
    if n > 0 {
        lemma_widths_of_front(rows, front, top, n - 1);
        assert(rows[n - 1] == front[n - 1]);
    }
}

/// The widths of what stands behind a front are added to those of the front.
proof fn lemma_widths_behind(a: Seq<Vec<i64>>, b: Seq<Vec<i64>>, top: nat, n: int)
    requires
        0 <= n <= b.len(),
    ensures
        width_sum(a + b, top, a.len() + n) == width_sum(a, top, a.len() as int) + width_sum(b, top, n),
    decreases n,
{
    if n == 0 {
        lemma_widths_of_front(a + b, a, top, a.len() as int);
    } else {
        lemma_widths_behind(a, b, top, n - 1);
        assert((a + b)[a.len() + n - 1] == b[n - 1]);
    }
}

/// A dataset that is of one kind only is read by the reader of that kind, and a hybrid one as such whatever
/// else it is.
pub proof fn datasets_are_read_by_their_kind(is_sparse: bool, is_multivector: bool)
    ensures
        reader_for(true, is_sparse, is_multivector) == QueryReader::Hybrid,
        reader_for(false, true, is_multivector) == QueryReader::Sparse,
        reader_for(false, false, true) == QueryReader::Multivector,
        reader_for(false, false, false) == QueryReader::Dense,
{
}

/// A profile is written with what it says, each under its own name.
pub proof fn profiles_are_written_under_their_names(
    s: GroundTruthStats,
    mean_width: JsonView,
    ceiling: JsonView,
)
    ensures
        ({
            let document = s.json(mean_width, ceiling);
            &&& document.member("queries"@) == Some(json::count_view(s.queries as u64))
            &&& document.member("top"@) == Some(json::count_view(s.top as u64))
            &&& document.member("mean_valid_neighbours_per_query"@) == Some(mean_width)
            &&& document.member("min_valid_neighbours_per_query"@) == Some(
                json::count_view(s.min_width as u64),
            )
            &&& document.member("queries_with_fewer_than_top_neighbours"@) == Some(
                json::count_view(s.queries_below_top as u64),
            )
            &&& document.member("recall_at_top_ceiling"@) == Some(ceiling)
        }),
{
    broadcast use json::put_then_member;

    reveal_strlit("queries");
    assert("queries"@.len() == 7);
    reveal_strlit("top");
    assert("top"@.len() == 3);
    reveal_strlit("mean_valid_neighbours_per_query");
    assert("mean_valid_neighbours_per_query"@.len() == 31);
    reveal_strlit("min_valid_neighbours_per_query");
    assert("min_valid_neighbours_per_query"@.len() == 30);
    reveal_strlit("queries_with_fewer_than_top_neighbours");
    assert("queries_with_fewer_than_top_neighbours"@.len() == 38);
    reveal_strlit("recall_at_top_ceiling");
    assert("recall_at_top_ceiling"@.len() == 21);
}

} // verus!
