//! What tables and charts promise: every number stands where its title says, and every point is drawn where
//! it belongs.
use vstd::prelude::*;

use crate::plot;
use crate::report::{self, ShownResult};
use crate::summary::{self, SearchEntry};
use crate::tables;
use crate::text;

verus! {

/// A text in a column is as wide as the column, or as long as it is where it does not fit; nothing of it is
/// lost, and only spaces are added, behind a text at the left and before one at the right.
pub proof fn columns_keep_their_texts(s: Seq<char>, width: nat, i: int)
    requires
        s.len() <= i < width,
    ensures
        tables::left_in(s, width).len() == width,
        tables::left_in(s, width).take(s.len() as int) == s,
        tables::left_in(s, width)[i] == ' ',
        tables::right_in(s, width).len() == width,
        tables::right_in(s, width).skip(width - s.len()) == s,
        tables::right_in(s, width)[i - s.len()] == ' ',
{
    assert(tables::left_in(s, width).take(s.len() as int) =~= s);
    assert(tables::right_in(s, width).skip(width - s.len()) =~= s);
}

/// A text that is too long for a column is not cut.
pub proof fn long_texts_are_not_cut(s: Seq<char>, width: nat)
    requires
        s.len() >= width,
    ensures
        tables::left_in(s, width) == s,
        tables::right_in(s, width) == s,
{
    assert(tables::left_in(s, width) =~= s);
    assert(tables::right_in(s, width) =~= s);
}

/// A table has its header between two rules, and below them its rows in their order.
pub proof fn tables_have_all_their_rows(
    header: Seq<Seq<char>>,
    rows: Seq<Seq<Seq<char>>>,
    widths: Seq<usize>,
    rule: nat,
    i: int,
)
    requires
        0 <= i < rows.len(),
    ensures
        tables::table_lines(header, rows, widths, rule).len() == rows.len() + 3,
        tables::table_lines(header, rows, widths, rule)[1] == tables::row(header, widths),
        tables::table_lines(header, rows, widths, rule)[i + 3] == tables::row(rows[i], widths),
        rule > 0 ==> tables::table_lines(header, rows, widths, rule)[0][0] == '-',
{
}

/// Texts with a separator between them hold each of them.
proof fn lemma_joined_holds(parts: Seq<Seq<char>>, separator: Seq<char>, i: int)
    requires
        0 <= i < parts.len(),
    ensures
        text::holds_text(text::joined(parts, separator), parts[i]),
    decreases parts.len(),
{
    let whole = text::joined(parts, separator);
    if parts.len() == 1 {
        assert(whole =~= Seq::empty() + parts[0] + Seq::<char>::empty());
        text::a_text_holds_its_parts(Seq::empty(), parts[0], Seq::empty());
    } else {
        let front = parts.drop_last();
        let before = text::joined(front, separator);
        if i < front.len() {
            lemma_joined_holds(front, separator, i);
            let at = text::first_place(before, parts[i], 0)->Some_0;
            text::lemma_first_place(before, parts[i], 0);
            assert(whole.subrange(at, at + parts[i].len()) =~= parts[i]);
            text::a_text_is_found_where_it_stands_first(whole, parts[i], 0, at);
        } else {
            assert(whole =~= (before + separator) + parts[i] + Seq::empty());
            text::a_text_holds_its_parts(before + separator, parts[i], Seq::empty());
        }
    }
}

/// A row of a table holds the text of every cell.
pub proof fn rows_hold_their_cells(cells: Seq<Seq<char>>, widths: Seq<usize>, i: int)
    requires
        0 <= i < cells.len(),
    ensures
        text::holds_text(tables::row(cells, widths), cells[i]),
{
    let parts = Seq::new(cells.len(), |k: int| tables::left_in(cells[k], widths[k] as nat));
    let whole = tables::row(cells, widths);
    lemma_joined_holds(parts, " "@, i);
    let at = text::first_place(whole, parts[i], 0)->Some_0;
    text::lemma_first_place(whole, parts[i], 0);
    assert(parts[i].take(cells[i].len() as int) =~= cells[i]);
    assert(whole.subrange(at, at + cells[i].len()) =~= cells[i]) by {
        assert(whole.subrange(at, at + parts[i].len()) == parts[i]);
        assert forall|k: int| 0 <= k < cells[i].len() implies whole.subrange(at, at + cells[i].len())[k]
            == cells[i][k] by {
            assert(whole.subrange(at, at + parts[i].len())[k] == parts[i][k]);
        }
    }
    text::a_text_is_found_where_it_stands_first(whole, cells[i], 0, at);
}

/// A point is drawn in its column, and the higher its rate the higher its line: the lowest rate is on the
/// last one. Where no point is, nothing is drawn.
pub proof fn points_are_drawn_where_they_belong(
    points: Seq<(usize, usize)>,
    i: int,
    line: int,
    column: int,
)
    requires
        0 <= i < points.len(),
        points[i].0 < 60,
        points[i].1 < 12,
        0 <= column < 60,
        0 <= line < 12,
        forall|j: int|
            0 <= j < points.len() ==> (#[trigger] points[j]).0 < 60 && points[j].1 < 12 && !(
            points[j].0 == column && points[j].1 == 11 - line),
    ensures
        tables::plot_line(points, 11 - points[i].1)[points[i].0 as int] == '\u{25cf}',
        tables::plot_line(points, line)[column] == ' ',
{
    assert(tables::at_most(points[i].0, tables::PLOT_WIDTH - 1) == points[i].0);
    assert(tables::at_most(points[i].1, tables::PLOT_HEIGHT - 1) == points[i].1);
    assert(tables::drawn_at(points, points.len() as int, 11 - points[i].1, points[i].0 as int));
    if tables::drawn_at(points, points.len() as int, line, column) {
        let j = choose|j: int|
            0 <= j < points.len() && tables::at_most(
                (#[trigger] points[j]).0,
                tables::PLOT_WIDTH - 1,
            ) == column && tables::PLOT_HEIGHT - 1 - tables::at_most(
                points[j].1,
                tables::PLOT_HEIGHT - 1,
            ) == line;
        assert(points[j].0 == column && points[j].1 == 11 - line);
    }
}

/// Every number of a search stands under its title.
pub proof fn numbers_stand_under_their_titles(s: ShownResult, label: Seq<char>)
    ensures
        report::quality_titles().len() == report::quality_cells(s).len() == report::quality_widths().len(),
        report::mixed_titles().len() == report::mixed_cells(label, s).len()
            == report::mixed_widths().len(),
        report::rate_titles().len() == report::rate_cells(s).len() == report::rate_widths().len(),
        report::quality_titles()[0] == "Recall"@ && report::quality_cells(s)[0] == s.recall@,
        report::quality_titles()[1] == "Precision"@ && report::quality_cells(s)[1] == s.precision@,
        report::quality_titles()[2] == "MRR"@ && report::quality_cells(s)[2] == s.mrr@,
        report::quality_titles()[3] == "NDCG"@ && report::quality_cells(s)[3] == s.ndcg@,
        report::quality_titles()[4] == "QPS"@ && report::quality_cells(s)[4] == s.qps@,
        report::quality_titles()[5] == "P50 (ms)"@ && report::quality_cells(s)[5] == s.p50@,
        report::quality_titles()[6] == "P95 (ms)"@ && report::quality_cells(s)[6] == s.p95@,
        report::mixed_titles()[0] == "Ratio"@ && report::mixed_cells(label, s)[0] == label,
        report::mixed_titles()[1] == "Recall"@ && report::mixed_cells(label, s)[1] == s.recall@,
        report::mixed_titles()[2] == "Prec"@ && report::mixed_cells(label, s)[2] == s.precision@,
        report::mixed_titles()[3] == "MRR"@ && report::mixed_cells(label, s)[3] == s.mrr@,
        report::mixed_titles()[4] == "NDCG"@ && report::mixed_cells(label, s)[4] == s.ndcg@,
        report::mixed_titles()[5] == "QPS"@ && report::mixed_cells(label, s)[5] == s.qps@,
        report::mixed_titles()[6] == "P50 (ms)"@ && report::mixed_cells(label, s)[6] == s.p50@,
        report::mixed_titles()[7] == "P95 (ms)"@ && report::mixed_cells(label, s)[7] == s.p95@,
        report::mixed_titles()[8] == "Upd QPS"@ && (s.update_qps matches Some(q) ==> report::mixed_cells(
            label,
            s,
        )[8] == q@),
        report::mixed_titles()[9] == "Upd P50 (ms)"@ && (s.update_p50 matches Some(q)
            ==> report::mixed_cells(label, s)[9] == q@),
        report::rate_titles()[0] == "QPS"@ && report::rate_cells(s)[0] == s.qps@,
        report::rate_titles()[1] == "P50 (ms)"@ && report::rate_cells(s)[1] == s.p50@,
        report::rate_titles()[2] == "P95 (ms)"@ && report::rate_cells(s)[2] == s.p95@,
{
}

/// A search that measured a precision is shown with the qualities of the best search of that precision; where
/// no search measured one, every search is shown with its rate.
pub proof fn every_precision_has_its_row(
    entries: Seq<SearchEntry>,
    keys: Seq<Seq<char>>,
    shown: Seq<ShownResult>,
    i: int,
) -> (line: int)
    requires
        keys.len() == entries.len(),
        summary::precisions_compare(entries, keys),
        0 <= i < entries.len(),
    ensures
        0 <= line < report::results_table(entries, keys, shown).len(),
        report::all_filter_only(entries) ==> report::results_table(entries, keys, shown)[line]
            == tables::row(report::rate_cells(shown[i]), report::rate_widths()),
        !report::all_filter_only(entries) ==> exists|b: int|
            0 <= b < entries.len() && keys[b] == keys[i] && #[trigger] summary::precision_summary(
                entries,
                keys,
            ).contains(b) && report::results_table(entries, keys, shown)[line] == tables::row(
                report::quality_cells(shown[b]),
                report::quality_widths(),
            ),
{
    if report::all_filter_only(entries) {
        i + 3
    } else {
        let best = summary::precision_summary(entries, keys);
        let j = summary::every_precision_is_shown(entries, keys, i);
        summary::the_best_search_of_a_precision_is_shown(entries, keys, i, j);
        assert(best.contains(best[j]));
        j + 3
    }
}

/// The lines of a curve are its headline, the titles, and a row for each of its points in their order.
pub proof fn every_point_of_a_curve_has_its_row(
    entries: Seq<SearchEntry>,
    shown: Seq<ShownResult>,
    c: summary::CurveView,
    i: int,
)
    requires
        0 <= i < c.points.len(),
    ensures
        report::lines_of_curve(entries, shown, c).len() == c.points.len() + 2,
        ({
            let e = entries[c.points[i]];
            let s = shown[c.points[i]];
            let line = report::lines_of_curve(entries, shown, c)[i + 2];
            e.results.client_saturated ==> line == report::curve_row(
                text::signed_decimal(e.parallel as int),
                s.qps@,
                s.p50@,
                s.p95@,
                s.p99@,
                "YES"@,
            )
        }),
        c.peak matches Some(b) ==> report::peak_shown(c, shown) == shown[b].qps@,
{
}

/// What is escaped in a drawing can be told apart from its tags: no bracket is left, texts are escaped piece
/// by piece, and a text without a mark of its own stays as it is.
pub proof fn escaped_texts_have_no_brackets(a: Seq<char>, b: Seq<char>)
    ensures
        !plot::escaped(a).contains('<') && !plot::escaped(a).contains('>'),
        plot::escaped(a + b) == plot::escaped(a) + plot::escaped(b),
        !a.contains('<') && !a.contains('>') && !a.contains('&') ==> plot::escaped(a) == a,
{
    lemma_no_brackets(a);
    lemma_escaped_together(a, b);
    if !a.contains('<') && !a.contains('>') && !a.contains('&') {
        lemma_unmarked(a);
    }
}

/// An escaped text has no bracket.
proof fn lemma_no_brackets(a: Seq<char>)
    ensures
        !plot::escaped(a).contains('<') && !plot::escaped(a).contains('>'),
    decreases a.len(),
{
    if a.len() > 0 {
        lemma_no_brackets(a.drop_last());
        reveal_strlit("&amp;");
        reveal_strlit("&lt;");
        reveal_strlit("&gt;");
        let before = plot::escaped(a.drop_last());
        let last = plot::escaped_char(a.last());
        let whole = plot::escaped(a);
        assert forall|k: int| 0 <= k < whole.len() implies #[trigger] whole[k] != '<' && whole[k] != '>' by {
            if k < before.len() {
                assert(whole[k] == before[k]);
                assert(before.contains(before[k]));
            } else {
                assert(whole[k] == last[k - before.len()]);
            }
        }
    }
}

/// Texts are escaped piece by piece.
proof fn lemma_escaped_together(a: Seq<char>, b: Seq<char>)
    ensures
        plot::escaped(a + b) == plot::escaped(a) + plot::escaped(b),
    decreases b.len(),
{
    if b.len() == 0 {
        assert(a + b =~= a);
        assert(plot::escaped(a) + plot::escaped(b) =~= plot::escaped(a));
    } else {
        lemma_escaped_together(a, b.drop_last());
        assert((a + b).drop_last() =~= a + b.drop_last());
        assert(plot::escaped(a + b) =~= plot::escaped(a) + plot::escaped(b));
    }
}

/// A text without marks stays as it is.
proof fn lemma_unmarked(a: Seq<char>)
    requires
        !a.contains('<'),
        !a.contains('>'),
        !a.contains('&'),
    ensures
        plot::escaped(a) == a,
    decreases a.len(),
{
    if a.len() > 0 {
        let front = a.drop_last();
        assert(a[a.len() - 1] == a.last());
        assert(a.contains(a.last()));
        assert forall|c: char| #[trigger] front.contains(c) implies a.contains(c) by {
            let k = choose|k: int| 0 <= k < front.len() && front[k] == c;
            assert(a[k] == c);
        }
        lemma_unmarked(front);
        assert(front + seq![a.last()] =~= a);
    } else {
        assert(plot::escaped(a) =~= a);
    }
}

/// The points of a series are drawn, each at its own place, and stand in its line.
proof fn lemma_circles(points: Seq<(String, String)>, fill: Seq<char>, n: int, i: int)
    requires
        0 <= i < n <= points.len(),
    ensures
        text::holds_text(
            plot::circles(points, fill, n),
            plot::circle(points[i].0@, points[i].1@, fill),
        ),
    decreases n,
{
    let whole = plot::circles(points, fill, n);
    let before = plot::circles(points, fill, n - 1);
    let one = plot::circle(points[i].0@, points[i].1@, fill);
    if i < n - 1 {
        lemma_circles(points, fill, n - 1, i);
        let at = text::first_place(before, one, 0)->Some_0;
        text::lemma_first_place(before, one, 0);
        assert(whole.subrange(at, at + one.len()) =~= one);
        text::a_text_is_found_where_it_stands_first(whole, one, 0, at);
    } else {
        assert(whole =~= before + one + Seq::empty());
        text::a_text_holds_its_parts(before, one, Seq::empty());
    }
}

/// Every point of every series of a chart is drawn at its own place, in the color of its series; its place
/// stands in the line of the series, and the label in the legend.
pub proof fn every_point_is_drawn(s: plot::DrawnSeries, place: int, i: int)
    requires
        0 <= i < s.points@.len(),
    ensures
        text::holds_text(
            plot::drawn_series(s, place),
            plot::circle(s.points@[i].0@, s.points@[i].1@, plot::color(place)),
        ),
        text::holds_text(
            text::joined(plot::listed_places(s.points@), " "@),
            s.points@[i].0@ + ","@ + s.points@[i].1@,
        ),
        plot::color(place) == plot::color(place + 10),
{
    let fill = plot::color(place);
    let line = plot::polyline(text::joined(plot::listed_places(s.points@), " "@), fill);
    let middle = plot::circles(s.points@, fill, s.points@.len() as int);
    let end = plot::legend(
        (56 + 20 * place) as nat,
        fill,
        (60 + 20 * place) as nat,
        plot::escaped(s.label@),
    );
    let whole = plot::drawn_series(s, place);
    let one = plot::circle(s.points@[i].0@, s.points@[i].1@, fill);
    lemma_circles(s.points@, fill, s.points@.len() as int, i);
    let at = text::first_place(middle, one, 0)->Some_0;
    text::lemma_first_place(middle, one, 0);
    let from = line.len() + at;
    assert(whole == line + middle + end);
    assert(whole.subrange(from, from + one.len()) =~= one) by {
        assert forall|k: int| 0 <= k < one.len() implies whole.subrange(from, from + one.len())[k]
            == one[k] by {
            assert(middle.subrange(at, at + one.len())[k] == one[k]);
        }
    }
    text::a_text_is_found_where_it_stands_first(whole, one, 0, from);
    lemma_joined_holds(plot::listed_places(s.points@), " "@, i);
}

/// Every mix of updates and searches has its row, with the numbers of its fastest search, where there are
/// several; the rows stand in the order of their keys.
pub proof fn every_mix_has_its_row(
    entries: Seq<SearchEntry>,
    sort_keys: Seq<u64>,
    shown: Seq<ShownResult>,
    i: int,
)
    requires
        report::mixes(entries).len() >= 2,
        0 <= i < summary::by_key(sort_keys, sort_keys.len() as int).len(),
    ensures
        ({
            let order = summary::by_key(sort_keys, sort_keys.len() as int);
            let label = report::mixes(entries)[order[i]];
            report::mixed_table(entries, sort_keys, shown)[i + 4] == tables::row(
                report::mixed_cells(
                    label,
                    shown[summary::fastest_of(entries, label, entries.len() as int)->Some_0],
                ),
                report::mixed_widths(),
            )
        }),
{
}

/// A report of curves has the lines of every curve, one curve behind the other.
pub proof fn every_curve_is_reported(
    entries: Seq<SearchEntry>,
    shown: Seq<ShownResult>,
    curves: Seq<summary::CurveView>,
    n: int,
    i: int,
    line: Seq<char>,
)
    requires
        0 <= i < n <= curves.len(),
        report::lines_of_curve(entries, shown, curves[i]).contains(line),
    ensures
        report::lines_of_curves(entries, shown, curves, n).contains(line),
    decreases n,
{
    let before = report::lines_of_curves(entries, shown, curves, n - 1);
    let now = report::lines_of_curves(entries, shown, curves, n);
    if i < n - 1 {
        every_curve_is_reported(entries, shown, curves, n - 1, i, line);
        let k = choose|k: int| 0 <= k < before.len() && before[k] == line;
        assert(now[k] == line);
    } else {
        let own = report::lines_of_curve(entries, shown, curves[i]);
        let k = choose|k: int| 0 <= k < own.len() && own[k] == line;
        assert(now[before.len() + k] == line);
    }
}

} // verus!
