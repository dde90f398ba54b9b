//! What is shown of the searches of an experiment when it ends.
use vstd::prelude::*;

use crate::float_bits;
use crate::sorted_texts;
use crate::summary::{
    self, analyze_precision_performance, concurrency_curves, fastest_with_label, filter_only,
    order_by_key, ratio_labels, ConcurrencyCurve, SearchEntry,
};
use crate::tables::{self, pad_left, table};
use crate::text::{self, signed_decimal_text};

verus! {

/// The numbers of a search as they are shown: qualities with four digits, rates with one, and times in
/// milliseconds with three.
pub struct ShownResult {
    pub recall: String,
    pub precision: String,
    pub mrr: String,
    pub ndcg: String,
    pub qps: String,
    pub p50: String,
    pub p95: String,
    pub p99: String,
    pub update_qps: Option<String>,
    pub update_p50: Option<String>,
}

/// A text, or a dash where there is none.
pub open spec fn or_dash(t: Option<String>) -> Seq<char> {
    match t {
        Some(s) => s@,
        None => "-"@,
    }
}

/// A text, or a dash where there is none.
fn text_or_dash(t: &Option<String>) -> (r: String)
    ensures
        r@ == or_dash(*t),
{
    match t {
        Some(s) => s.clone(),
        None => "-".to_owned(),
    }
}

/// The cells of a search that has no precision.
pub open spec fn rate_cells(s: ShownResult) -> Seq<Seq<char>> {
    seq![s.qps@, s.p50@, s.p95@]
}

/// The cells of a search.
pub open spec fn quality_cells(s: ShownResult) -> Seq<Seq<char>> {
    seq![s.recall@, s.precision@, s.mrr@, s.ndcg@, s.qps@, s.p50@, s.p95@]
}

/// The cells of a search among updates.
pub open spec fn mixed_cells(label: Seq<char>, s: ShownResult) -> Seq<Seq<char>> {
    seq![
        label,
        s.recall@,
        s.precision@,
        s.mrr@,
        s.ndcg@,
        s.qps@,
        s.p50@,
        s.p95@,
        or_dash(s.update_qps),
        or_dash(s.update_p50),
    ]
}

/// The cells of a search that has no precision.
fn new_rate_cells(s: &ShownResult) -> (r: Vec<String>)
    ensures
        text::texts_view(r@) == rate_cells(*s),
{
    let r: Vec<String> = vec![s.qps.clone(), s.p50.clone(), s.p95.clone()];
    assert(text::texts_view(r@) =~= rate_cells(*s));
    r
}

/// The cells of a search.
fn new_quality_cells(s: &ShownResult) -> (r: Vec<String>)
    ensures
        text::texts_view(r@) == quality_cells(*s),
{
    let r: Vec<String> = vec![
        s.recall.clone(),
        s.precision.clone(),
        s.mrr.clone(),
        s.ndcg.clone(),
        s.qps.clone(),
        s.p50.clone(),
        s.p95.clone(),
    ];
    assert(text::texts_view(r@) =~= quality_cells(*s));
    r
}

/// The cells of a search among updates.
fn new_mixed_cells(label: &str, s: &ShownResult) -> (r: Vec<String>)
    ensures
        text::texts_view(r@) == mixed_cells(label@, *s),
{
    let r: Vec<String> = vec![
        label.to_owned(),
        s.recall.clone(),
        s.precision.clone(),
        s.mrr.clone(),
        s.ndcg.clone(),
        s.qps.clone(),
        s.p50.clone(),
        s.p95.clone(),
        text_or_dash(&s.update_qps),
        text_or_dash(&s.update_p50),
    ];
    assert(text::texts_view(r@) =~= mixed_cells(label@, *s));
    r
}

/// The titles of the columns where there is no precision.
pub open spec fn rate_titles() -> Seq<Seq<char>> {
    seq!["QPS"@, "P50 (ms)"@, "P95 (ms)"@]
}

/// The titles of the columns.
pub open spec fn quality_titles() -> Seq<Seq<char>> {
    seq!["Recall"@, "Precision"@, "MRR"@, "NDCG"@, "QPS"@, "P50 (ms)"@, "P95 (ms)"@]
}

/// The titles of the columns where there are updates.
pub open spec fn mixed_titles() -> Seq<Seq<char>> {
    seq![
        "Ratio"@,
        "Recall"@,
        "Prec"@,
        "MRR"@,
        "NDCG"@,
        "QPS"@,
        "P50 (ms)"@,
        "P95 (ms)"@,
        "Upd QPS"@,
        "Upd P50 (ms)"@,
    ]
}

/// The widths of the columns where there is no precision.
pub open spec fn rate_widths() -> Seq<usize> {
    seq![10usize, 12, 12]
}

/// The widths of the columns.
pub open spec fn quality_widths() -> Seq<usize> {
    seq![10usize, 10, 8, 8, 10, 12, 12]
}

/// The widths of the columns where there are updates.
pub open spec fn mixed_widths() -> Seq<usize> {
    seq![14usize, 8, 8, 8, 8, 10, 12, 12, 10, 12]
}

/// Whether no search has a precision.
pub open spec fn all_filter_only(entries: Seq<SearchEntry>) -> bool {
    forall|i: int| 0 <= i < entries.len() ==> !summary::has_precision(#[trigger] entries[i])
}

/// The table of the searches of an experiment: all of them where none has a precision, and else the best
/// at each precision.
pub open spec fn results_table(
    entries: Seq<SearchEntry>,
    keys: Seq<Seq<char>>,
    shown: Seq<ShownResult>,
) -> Seq<Seq<char>> {
    if entries.len() == 0 {
        Seq::empty()
    } else if all_filter_only(entries) {
        tables::table_lines(
            rate_titles(),
            Seq::new(entries.len(), |i: int| rate_cells(shown[i])),
            rate_widths(),
            40,
        ).push(""@)
    } else {
        let best = summary::precision_summary(entries, keys);
        tables::table_lines(
            quality_titles(),
            Seq::new(best.len(), |i: int| quality_cells(shown[best[i]])),
            quality_widths(),
            82,
        ).push(""@)
    }
}

/// The table of the searches of an experiment, with an empty line behind it. `keys` holds of each search
/// the text that its precision is rounded to.
pub fn results_lines(entries: &[SearchEntry], keys: &[String], shown: &[ShownResult]) -> (r: Vec<String>)
    requires
        keys@.len() == entries@.len(),
        shown@.len() == entries@.len(),
        !all_filter_only(entries@) ==> summary::precisions_compare(
            entries@,
            text::texts_view(keys@),
        ),
    ensures
        text::texts_view(r@) == results_table(entries@, text::texts_view(keys@), shown@),
{
    let mut rows: Vec<Vec<String>> = Vec::new();
    if entries.len() == 0 {
        let r: Vec<String> = Vec::new();
        assert(text::texts_view(r@) =~= Seq::empty());
        return r;
    }
    if filter_only(entries) {
        let mut i: usize = 0;
        while i < shown.len()
            invariant
                i <= shown@.len(),
                rows@.len() == i,
                forall|j: int| 0 <= j < i ==> text::texts_view((#[trigger] rows@[j])@) == rate_cells(
                    shown@[j],
                ),
                forall|j: int| 0 <= j < i ==> (#[trigger] rows@[j])@.len() == 3,
            decreases shown@.len() - i,
        {
            let cells: Vec<String> = new_rate_cells(&shown[i]);
            assert(text::texts_view(cells@).len() == cells@.len());
            rows.push(cells);
            i += 1;
        }
        let titles: Vec<String> = vec!["QPS".to_owned(), "P50 (ms)".to_owned(), "P95 (ms)".to_owned()];
        let widths: Vec<usize> = vec![10, 12, 12];
        assert(text::texts_view(titles@) =~= rate_titles());
        assert(widths@ =~= rate_widths());
        assert(tables::rows_view(rows@) =~= Seq::new(
            entries@.len(),
            |i: int| rate_cells(shown@[i]),
        ));
        let mut r: Vec<String> = table(&titles, rows.as_slice(), widths.as_slice(), 40);
        let ghost before = text::texts_view(r@);
        r.push("".to_owned());
        assert(text::texts_view(r@) =~= before.push(""@));
        return r;
    }
    let best: Vec<usize> = analyze_precision_performance(entries, keys);
    let ghost best_places = summary::precision_summary(entries@, text::texts_view(keys@));
    let mut i: usize = 0;
    while i < best.len()
        invariant
            i <= best@.len(),
            shown@.len() == entries@.len(),
            best_places == summary::places(best@),
            forall|j: int| 0 <= j < best@.len() ==> (#[trigger] best@[j]) < entries@.len(),
            rows@.len() == i,
            forall|j: int|
                0 <= j < i ==> text::texts_view((#[trigger] rows@[j])@) == quality_cells(
                    shown@[best@[j] as int],
                ),
            forall|j: int| 0 <= j < i ==> (#[trigger] rows@[j])@.len() == 7,
        decreases best@.len() - i,
    {
        let cells: Vec<String> = new_quality_cells(&shown[best[i]]);
        assert(text::texts_view(cells@).len() == cells@.len());
        rows.push(cells);
        i += 1;
    }
    let titles: Vec<String> = vec![
        "Recall".to_owned(),
        "Precision".to_owned(),
        "MRR".to_owned(),
        "NDCG".to_owned(),
        "QPS".to_owned(),
        "P50 (ms)".to_owned(),
        "P95 (ms)".to_owned(),
    ];
    let widths: Vec<usize> = vec![10, 10, 8, 8, 10, 12, 12];
    assert(text::texts_view(titles@) =~= quality_titles());
    assert(widths@ =~= quality_widths());
    assert(tables::rows_view(rows@) =~= Seq::new(
        best_places.len(),
        |i: int| quality_cells(shown@[best_places[i]]),
    ));
    let mut r: Vec<String> = table(&titles, rows.as_slice(), widths.as_slice(), 82);
    let ghost before = text::texts_view(r@);
    r.push("".to_owned());
    assert(text::texts_view(r@) =~= before.push(""@));
    r
}

/// The labels of the mixes of updates and searches, each once.
pub open spec fn mixes(entries: Seq<SearchEntry>) -> Seq<Seq<char>> {
    sorted_texts::distinct(summary::label_texts(entries), entries.len() as int)
}

/// The row of a mix: its fastest search.
pub open spec fn mix_row(
    entries: Seq<SearchEntry>,
    shown: Seq<ShownResult>,
    label: Seq<char>,
) -> Seq<Seq<char>> {
    mixed_cells(label, shown[summary::fastest_of(entries, label, entries.len() as int)->Some_0])
}

/// The table of the mixes of updates and searches, by ascending key, where there are several.
pub open spec fn mixed_table(
    entries: Seq<SearchEntry>,
    sort_keys: Seq<u64>,
    shown: Seq<ShownResult>,
) -> Seq<Seq<char>> {
    let labels = mixes(entries);
    if labels.len() < 2 {
        Seq::empty()
    } else {
        let order = summary::by_key(sort_keys, sort_keys.len() as int);
        seq![""@] + tables::table_lines(
            mixed_titles(),
            Seq::new(order.len(), |i: int| mix_row(entries, shown, labels[order[i]])),
            mixed_widths(),
            116,
        ).push(""@)
    }
}

/// A label that occurs has a fastest search.
proof fn lemma_fastest_exists(entries: Seq<SearchEntry>, label: Seq<char>, n: int, i: int)
    requires
        0 <= i < n <= entries.len(),
        summary::ratio_label(entries[i]) == label,
    ensures
        summary::fastest_of(entries, label, n) is Some,
    decreases n,
{
    if i < n - 1 {
        lemma_fastest_exists(entries, label, n - 1, i);
    }
}

/// The table of the mixes of updates and searches, with an empty line before and behind it. `sort_keys`
/// holds of each label the key that it is ordered by.
pub fn mixed_lines(entries: &[SearchEntry], sort_keys: &[u64], shown: &[ShownResult]) -> (r: Vec<String>)
    requires
        sort_keys@.len() == mixes(entries@).len(),
        shown@.len() == entries@.len(),
        mixes(entries@).len() >= 2 ==> forall|i: int|
            0 <= i < sort_keys@.len() ==> !float_bits::is_nan64(#[trigger] sort_keys@[i]),
        mixes(entries@).len() >= 2 ==> forall|i: int, j: int|
            0 <= i < entries@.len() && 0 <= j < entries@.len() && i != j && summary::ratio_label(
                #[trigger] entries@[i],
            ) == summary::ratio_label(#[trigger] entries@[j]) ==> !float_bits::is_nan64(
                entries@[i].results.rps_bits,
            ),
    ensures
        text::texts_view(r@) == mixed_table(entries@, sort_keys@, shown@),
{
    let labels: Vec<String> = ratio_labels(entries);
    let ghost views = mixes(entries@);
    assert(text::texts_view(labels@).len() == labels@.len());
    if labels.len() < 2 {
        let r: Vec<String> = Vec::new();
        assert(text::texts_view(r@) =~= Seq::empty());
        return r;
    }
    let order: Vec<usize> = order_by_key(sort_keys);
    let ghost order_places = summary::by_key(sort_keys@, sort_keys@.len() as int);
    let mut rows: Vec<Vec<String>> = Vec::new();
    let mut i: usize = 0;
    while i < order.len()
        invariant
            i <= order@.len(),
            shown@.len() == entries@.len(),
            labels@.len() == sort_keys@.len(),
            views == mixes(entries@),
            views == text::texts_view(labels@),
            forall|j: int| 0 <= j < order@.len() ==> (#[trigger] order@[j]) < sort_keys@.len(),
            forall|i: int, j: int|
                0 <= i < entries@.len() && 0 <= j < entries@.len() && i != j && summary::ratio_label(
                    #[trigger] entries@[i],
                ) == summary::ratio_label(#[trigger] entries@[j]) ==> !float_bits::is_nan64(
                    entries@[i].results.rps_bits,
                ),
            rows@.len() == i,
            forall|j: int|
                0 <= j < i ==> text::texts_view((#[trigger] rows@[j])@) == mix_row(
                    entries@,
                    shown@,
                    views[order@[j] as int],
                ),
            forall|j: int| 0 <= j < i ==> (#[trigger] rows@[j])@.len() == 10,
        decreases order@.len() - i,
    {
        let label: &str = labels[order[i]].as_str();
        assert(views[order@[i as int] as int] == label@);
        proof {
            let texts = summary::label_texts(entries@);
            sorted_texts::distinct_texts_ascend(texts, texts.len() as int);
            assert(views.contains(label@));
            assert(texts.take(texts.len() as int) =~= texts);
            let k = choose|k: int| 0 <= k < texts.len() && texts[k] == label@;
            lemma_fastest_exists(entries@, label@, entries@.len() as int, k);
        }
        let best: Option<usize> = fastest_with_label(entries, label);
        if let Some(b) = best {
            let cells: Vec<String> = new_mixed_cells(label, &shown[b]);
            assert(text::texts_view(cells@).len() == cells@.len());
            rows.push(cells);
        }
        i += 1;
    }
    let titles: Vec<String> = vec![
        "Ratio".to_owned(),
        "Recall".to_owned(),
        "Prec".to_owned(),
        "MRR".to_owned(),
        "NDCG".to_owned(),
        "QPS".to_owned(),
        "P50 (ms)".to_owned(),
        "P95 (ms)".to_owned(),
        "Upd QPS".to_owned(),
        "Upd P50 (ms)".to_owned(),
    ];
    let widths: Vec<usize> = vec![14, 8, 8, 8, 8, 10, 12, 12, 10, 12];
    assert(text::texts_view(titles@) =~= mixed_titles());
    assert(widths@ =~= mixed_widths());
    assert(summary::places(order@) == order_places);
    assert(tables::rows_view(rows@) =~= Seq::new(
        order_places.len(),
        |i: int| mix_row(entries@, shown@, views[order_places[i]]),
    ));
    let body: Vec<String> = table(&titles, rows.as_slice(), widths.as_slice(), 116);
    let ghost inner = text::texts_view(body@);
    let mut r: Vec<String> = vec!["".to_owned()];
    let mut k: usize = 0;
    assert(text::texts_view(r@) =~= seq![""@] + inner.take(0));
    while k < body.len()
        invariant
            k <= body@.len(),
            inner == text::texts_view(body@),
            text::texts_view(r@) == seq![""@] + inner.take(k as int),
        decreases body@.len() - k,
    {
        let ghost before = text::texts_view(r@);
        r.push(body[k].clone());
        assert(text::texts_view(r@) =~= before.push(inner[k as int]));
        assert(text::texts_view(r@) =~= seq![""@] + inner.take(k + 1));
        k += 1;
    }
    assert(inner.take(k as int) =~= inner);
    let ghost before = text::texts_view(r@);
    r.push("".to_owned());
    assert(text::texts_view(r@) =~= before.push(""@));
    assert(before.push(""@) =~= seq![""@] + inner.push(""@));
    r
}

/// What is said of a curve: its highest rate, at which number of clients, and whether more of them helped.
pub open spec fn curve_headline(c: summary::CurveView, most: Seq<char>) -> Seq<char> {
    "  ef="@ + c.ef + " — peak "@ + most + " QPS @ parallel "@ + text::signed_decimal(
        c.max_qps_parallel as int,
    ) + match c.knee_parallel {
        Some(k) => " (throughput knee at parallel "@ + text::signed_decimal(k as int)
            + "; higher concurrency did not help)"@,
        None => " (still climbing at top of swept range — sweep higher to find the knee)"@,
    }
}

/// A row of the table of a curve.
pub open spec fn curve_row(
    parallel: Seq<char>,
    qps: Seq<char>,
    p50: Seq<char>,
    p95: Seq<char>,
    p99: Seq<char>,
    saturated: Seq<char>,
) -> Seq<char> {
    "    "@ + tables::right_in(parallel, 8) + "  "@ + tables::right_in(qps, 10) + "  "@
        + tables::right_in(p50, 9) + "  "@ + tables::right_in(p95, 9) + "  "@ + tables::right_in(
        p99,
        9,
    ) + "  "@ + tables::right_in(saturated, 6)
}

/// A row of the table of a curve.
fn new_curve_row(
    parallel: &str,
    qps: &str,
    p50: &str,
    p95: &str,
    p99: &str,
    saturated: &str,
) -> (r: String)
    ensures
        r@ == curve_row(parallel@, qps@, p50@, p95@, p99@, saturated@),
{
    let mut r: String = "    ".to_owned();
    r.append(pad_left(parallel, 8).as_str());
    r.append("  ");
    r.append(pad_left(qps, 10).as_str());
    r.append("  ");
    r.append(pad_left(p50, 9).as_str());
    r.append("  ");
    r.append(pad_left(p95, 9).as_str());
    r.append("  ");
    r.append(pad_left(p99, 9).as_str());
    r.append("  ");
    r.append(pad_left(saturated, 6).as_str());
    r
}

/// The row of a search in the table of a curve.
pub open spec fn point_row(e: SearchEntry, s: ShownResult) -> Seq<char> {
    curve_row(
        text::signed_decimal(e.parallel as int),
        s.qps@,
        s.p50@,
        s.p95@,
        s.p99@,
        if e.results.client_saturated {
            "YES"@
        } else {
            "-"@
        },
    )
}

/// The highest rate of a curve, as it is shown.
pub open spec fn peak_shown(c: summary::CurveView, shown: Seq<ShownResult>) -> Seq<char> {
    match c.peak {
        Some(b) => shown[b].qps@,
        None => "-inf"@,
    }
}

/// The lines of a curve.
pub open spec fn lines_of_curve(
    entries: Seq<SearchEntry>,
    shown: Seq<ShownResult>,
    c: summary::CurveView,
) -> Seq<Seq<char>> {
    seq![
        curve_headline(c, peak_shown(c, shown)),
        curve_row("parallel"@, "QPS"@, "p50 ms"@, "p95 ms"@, "p99 ms"@, "sat?"@),
    ] + Seq::new(
        c.points.len(),
        |i: int| point_row(entries[c.points[i]], shown[c.points[i]]),
    )
}

/// The lines of the first `n` curves.
pub open spec fn lines_of_curves(
    entries: Seq<SearchEntry>,
    shown: Seq<ShownResult>,
    curves: Seq<summary::CurveView>,
    n: int,
) -> Seq<Seq<char>>
    decreases n,
{
    if n <= 0 {
        Seq::empty()
    } else {
        lines_of_curves(entries, shown, curves, n - 1) + lines_of_curve(
            entries,
            shown,
            curves[n - 1],
        )
    }
}

/// What is shown of the rate over the number of clients.
pub open spec fn curves_report(entries: Seq<SearchEntry>, shown: Seq<ShownResult>) -> Seq<Seq<char>> {
    let curves = summary::all_curves(entries);
    if curves.len() == 0 {
        Seq::empty()
    } else {
        seq!["\nTHROUGHPUT vs CONCURRENCY (saturation curve):"@] + lines_of_curves(
            entries,
            shown,
            curves,
            curves.len() as int,
        )
    }
}

/// What is said of a curve.
fn new_curve_headline(c: &ConcurrencyCurve, most: &str) -> (r: String)
    ensures
        r@ == curve_headline(c@, most@),
{
    let mut r: String = "  ef=".to_owned();
    r.append(c.ef.as_str());
    r.append(" — peak ");
    r.append(most);
    r.append(" QPS @ parallel ");
    r.append(signed_decimal_text(c.max_qps_parallel).as_str());
    let ghost head = r@;
    match c.knee_parallel {
        Some(k) => {
            let mut tail: String = " (throughput knee at parallel ".to_owned();
            tail.append(signed_decimal_text(k).as_str());
            tail.append("; higher concurrency did not help)");
            r.append(tail.as_str());
        },
        None => {
            r.append(" (still climbing at top of swept range — sweep higher to find the knee)");
        },
    }
    r
}

/// What is shown of the rate over the number of clients, where several numbers were tried.
pub fn curves_lines(entries: &[SearchEntry], shown: &[ShownResult]) -> (r: Vec<String>)
    requires
        shown@.len() == entries@.len(),
    ensures
        text::texts_view(r@) == curves_report(entries@, shown@),
{
    let curves: Vec<ConcurrencyCurve> = concurrency_curves(entries);
    let ghost views = summary::all_curves(entries@);
    let mut r: Vec<String> = Vec::new();
    assert(summary::curve_views(curves@).len() == curves@.len());
    if curves.len() == 0 {
        assert(text::texts_view(r@) =~= Seq::empty());
        return r;
    }
    let ghost title = seq!["\nTHROUGHPUT vs CONCURRENCY (saturation curve):"@];
    r.push("\nTHROUGHPUT vs CONCURRENCY (saturation curve):".to_owned());
    assert(text::texts_view(r@) =~= title + lines_of_curves(entries@, shown@, views, 0));
    let mut i: usize = 0;
    while i < curves.len()
        invariant
            i <= curves@.len(),
            shown@.len() == entries@.len(),
            views == summary::curve_views(curves@),
            forall|k: int|
                0 <= k < curves@.len() ==> summary::points_into(
                    #[trigger] curves@[k],
                    entries@.len() as int,
                ),
            text::texts_view(r@) == title + lines_of_curves(entries@, shown@, views, i as int),
        decreases curves@.len() - i,
    {
        let c: &ConcurrencyCurve = &curves[i];
        assert(views[i as int] == c@);
        assert(summary::points_into(curves@[i as int], entries@.len() as int));
        let ghost before = text::texts_view(r@);
        let ghost lines = lines_of_curve(entries@, shown@, c@);
        let most: &str = match c.peak {
            Some(b) => shown[b].qps.as_str(),
            None => "-inf",
        };
        r.push(new_curve_headline(c, most));
        r.push(new_curve_row("parallel", "QPS", "p50 ms", "p95 ms", "p99 ms", "sat?"));
        assert(text::texts_view(r@) =~= before + lines.take(2));
        let mut k: usize = 0;
        while k < c.points.len()
            invariant
                k <= c.points@.len(),
                shown@.len() == entries@.len(),
                forall|x: int| 0 <= x < c.points@.len() ==> (#[trigger] c.points@[x]) < entries@.len(),
                lines == lines_of_curve(entries@, shown@, c@),
                text::texts_view(r@) == before + lines.take(k + 2),
            decreases c.points@.len() - k,
        {
            let e: &SearchEntry = &entries[c.points[k]];
            let s: &ShownResult = &shown[c.points[k]];
            let parallel: String = signed_decimal_text(e.parallel);
            let line: String = new_curve_row(
                parallel.as_str(),
                s.qps.as_str(),
                s.p50.as_str(),
                s.p95.as_str(),
                s.p99.as_str(),
                if e.results.client_saturated {
                    "YES"
                } else {
                    "-"
                },
            );
            let ghost sofar = text::texts_view(r@);
            r.push(line);
            assert(c@.points[k as int] == c.points@[k as int]);
            assert(lines[k + 2] == line@);
            assert(text::texts_view(r@) =~= sofar.push(line@));
            assert(text::texts_view(r@) =~= before + lines.take(k + 3));
            k += 1;
        }
        assert(lines.take(k + 2) =~= lines);
        assert(text::texts_view(r@) =~= title + (lines_of_curves(
            entries@,
            shown@,
            views,
            i as int,
        ) + lines));
        i += 1;
    }
    r
}

} // verus!
