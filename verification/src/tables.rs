//! Tables and charts of text.
use vstd::prelude::*;

use crate::text::{self, join_texts};

verus! {

/// A character several times.
pub open spec fn repeated(c: char, n: nat) -> Seq<char> {
    Seq::new(n, |i: int| c)
}

/// A character several times.
pub fn repeat_char(c: char, n: usize) -> (r: String)
    ensures
        r@ == repeated(c, n as nat),
{
    let mut r: String = String::new();
    let mut i: usize = 0;
    assert(r@ =~= repeated(c, 0));
    while i < n
        invariant
            i <= n,
            r@ == repeated(c, i as nat),
        decreases n - i,
    {
        r.push(c);
        i += 1;
        assert(r@ =~= repeated(c, i as nat));
    }
    r
}

/// How many spaces fill a text up to a width.
pub open spec fn missing(s: Seq<char>, width: nat) -> nat {
    if s.len() < width {
        (width - s.len()) as nat
    } else {
        0
    }
}

/// How many spaces fill a text up to a width.
fn count_missing(s: &str, width: usize) -> (r: usize)
    ensures
        r == missing(s@, width as nat),
{
    let n: usize = text::chars_of(s).len();
    if n < width {
        width - n
    } else {
        0
    }
}

/// A text at the left of a column.
pub open spec fn left_in(s: Seq<char>, width: nat) -> Seq<char> {
    s + repeated(' ', missing(s, width))
}

/// A text at the left of a column.
pub fn pad_right(s: &str, width: usize) -> (r: String)
    ensures
        r@ == left_in(s@, width as nat),
{
    let mut r: String = s.to_owned();
    r.append(repeat_char(' ', count_missing(s, width)).as_str());
    r
}

/// A text at the right of a column.
pub open spec fn right_in(s: Seq<char>, width: nat) -> Seq<char> {
    repeated(' ', missing(s, width)) + s
}

/// A text at the right of a column.
pub fn pad_left(s: &str, width: usize) -> (r: String)
    ensures
        r@ == right_in(s@, width as nat),
{
    let mut r: String = repeat_char(' ', count_missing(s, width));
    r.append(s);
    r
}

/// A row of a table: each text at the left of its column, with a space between the columns.
pub open spec fn row(cells: Seq<Seq<char>>, widths: Seq<usize>) -> Seq<char> {
    text::joined(
        Seq::new(cells.len(), |i: int| left_in(cells[i], widths[i] as nat)),
        " "@,
    )
}

/// A row of a table.
pub fn table_row(cells: &Vec<String>, widths: &[usize]) -> (r: String)
    requires
        cells@.len() == widths@.len(),
    ensures
        r@ == row(text::texts_view(cells@), widths@),
{
    let mut parts: Vec<String> = Vec::new();
    let mut i: usize = 0;
    let ghost views = text::texts_view(cells@);
    while i < cells.len()
        invariant
            i <= cells@.len(),
            cells@.len() == widths@.len(),
            views == text::texts_view(cells@),
            parts@.len() == i,
            forall|j: int|
                0 <= j < i ==> (#[trigger] parts@[j])@ == left_in(views[j], widths@[j] as nat),
        decreases cells@.len() - i,
    {
        parts.push(pad_right(cells[i].as_str(), widths[i]));
        i += 1;
    }
    assert(text::texts_view(parts@) =~= Seq::new(
        views.len(),
        |j: int| left_in(views[j], widths@[j] as nat),
    ));
    join_texts(parts.as_slice(), " ")
}

/// The lines of a table: a rule, the header, a rule, and the rows.
pub open spec fn table_lines(
    header: Seq<Seq<char>>,
    rows: Seq<Seq<Seq<char>>>,
    widths: Seq<usize>,
    rule: nat,
) -> Seq<Seq<char>> {
    seq![repeated('-', rule), row(header, widths), repeated('-', rule)] + Seq::new(
        rows.len(),
        |i: int| row(rows[i], widths),
    )
}

/// The views of rows of texts.
pub open spec fn rows_view(rows: Seq<Vec<String>>) -> Seq<Seq<Seq<char>>> {
    Seq::new(rows.len(), |i: int| text::texts_view(rows[i]@))
}

/// The lines of a table.
pub fn table(header: &Vec<String>, rows: &[Vec<String>], widths: &[usize], rule: usize) -> (r: Vec<
    String,
>)
    requires
        header@.len() == widths@.len(),
        forall|i: int| 0 <= i < rows@.len() ==> (#[trigger] rows@[i])@.len() == widths@.len(),
    ensures
        text::texts_view(r@) == table_lines(
            text::texts_view(header@),
            rows_view(rows@),
            widths@,
            rule as nat,
        ),
{
    let mut r: Vec<String> = Vec::new();
    r.push(repeat_char('-', rule));
    r.push(table_row(header, widths));
    r.push(repeat_char('-', rule));
    let mut i: usize = 0;
    while i < rows.len()
        invariant
            i <= rows@.len(),
            r@.len() == i + 3,
            forall|k: int| 0 <= k < rows@.len() ==> (#[trigger] rows@[k])@.len() == widths@.len(),
            r@[0]@ == repeated('-', rule as nat),
            r@[1]@ == row(text::texts_view(header@), widths@),
            r@[2]@ == repeated('-', rule as nat),
            forall|j: int|
                3 <= j < i + 3 ==> (#[trigger] r@[j])@ == row(
                    text::texts_view(rows@[j - 3]@),
                    widths@,
                ),
        decreases rows@.len() - i,
    {
        r.push(table_row(&rows[i], widths));
        i += 1;
    }
    assert(text::texts_view(r@) =~= table_lines(
        text::texts_view(header@),
        rows_view(rows@),
        widths@,
        rule as nat,
    ));
    r
}

/// The width of a chart of points.
pub const PLOT_WIDTH: usize = 60;

/// The height of a chart of points.
pub const PLOT_HEIGHT: usize = 12;

/// A number, or a bound where it is larger.
pub open spec fn at_most(n: usize, bound: int) -> int {
    if n > bound {
        bound
    } else {
        n as int
    }
}

/// Whether one of the first `n` points is drawn at a place: the lowest rate is on the last line, and
/// what is too far out is drawn at the edge.
pub open spec fn drawn_at(points: Seq<(usize, usize)>, n: int, line: int, column: int) -> bool {
    exists|i: int|
        0 <= i < n && at_most((#[trigger] points[i]).0, PLOT_WIDTH - 1) == column && PLOT_HEIGHT - 1
            - at_most(points[i].1, PLOT_HEIGHT - 1) == line
}

/// A line of a chart of points.
pub open spec fn plot_line(points: Seq<(usize, usize)>, line: int) -> Seq<char> {
    Seq::new(
        PLOT_WIDTH as nat,
        |column: int|
            if drawn_at(points, points.len() as int, line, column) {
                '\u{25cf}'
            } else {
                ' '
            },
    )
}

/// Whether a point is drawn at a place.
fn is_drawn_at(points: &[(usize, usize)], line: usize, column: usize) -> (r: bool)
    ensures
        r == drawn_at(points@, points@.len() as int, line as int, column as int),
{
    let mut i: usize = 0;
    while i < points.len()
        invariant
            i <= points@.len(),
            !drawn_at(points@, i as int, line as int, column as int),
        decreases points@.len() - i,
    {
        let (px, py): (usize, usize) = points[i];
        let x: usize = if px > PLOT_WIDTH - 1 {
            PLOT_WIDTH - 1
        } else {
            px
        };
        let y: usize = if py > PLOT_HEIGHT - 1 {
            PLOT_HEIGHT - 1
        } else {
            py
        };
        if x == column && PLOT_HEIGHT - 1 - y == line {
            assert(at_most(points@[i as int].0, PLOT_WIDTH - 1) == column);
            return true;
        }
        i += 1;
    }
    false
}

/// A line of a chart of points.
fn draw_line(points: &[(usize, usize)], line: usize) -> (r: String)
    ensures
        r@ == plot_line(points@, line as int),
{
    let mut r: String = String::new();
    let mut column: usize = 0;
    while column < PLOT_WIDTH
        invariant
            column <= PLOT_WIDTH,
            r@ == plot_line(points@, line as int).take(column as int),
        decreases PLOT_WIDTH - column,
    {
        let ghost before = r@;
        if is_drawn_at(points, line, column) {
            r.push('\u{25cf}');
        } else {
            r.push(' ');
        }
        assert(r@ =~= plot_line(points@, line as int).take(column + 1));
        column += 1;
    }
    assert(plot_line(points@, line as int).take(PLOT_WIDTH as int) =~= plot_line(
        points@,
        line as int,
    ));
    r
}

/// The title of a chart of points.
pub open spec fn plot_title(engine: Seq<char>, dataset: Seq<char>) -> Seq<char> {
    "\nQPS vs Precision Trade-off - "@
        + engine
        + " - "@
        + dataset
        + " (up and to the right is better):\n"@
}

/// The title of a chart of points.
fn new_plot_title(engine: &str, dataset: &str) -> (m: String)
    ensures
        m@ == plot_title(engine@, dataset@),
{
    let mut m: String = "\nQPS vs Precision Trade-off - ".to_owned();
    m.append(engine);
    m.append(" - ");
    m.append(dataset);
    m.append(" (up and to the right is better):\n");
    m
}

/// The lines of a chart of points: the title, a line for each step of the rate with its label, the axis,
/// and the labels of the precision below it.
pub open spec fn plot_lines(
    engine: Seq<char>,
    dataset: Seq<char>,
    points: Seq<(usize, usize)>,
    rates: Seq<Seq<char>>,
    precisions: Seq<Seq<char>>,
) -> Seq<Seq<char>> {
    seq![plot_title(engine, dataset)] + Seq::new(
        PLOT_HEIGHT as nat,
        |i: int| right_in(rates[i], 8) + " \u{2502}"@ + plot_line(points, i),
    ) + seq![
        "         \u{2514}"@ + repeated('\u{2500}', PLOT_WIDTH as nat),
        "          "@ + left_in(precisions[0], 15) + left_in(precisions[1], 15) + left_in(
            precisions[2],
            15,
        ) + left_in(precisions[3], 15),
        repeated(' ', 8) + "Precision (0.0 = 0%, 1.0 = 100%)"@,
    ]
}

/// The lines of a chart of points. The places of the points are counted from the lower left, and the
/// labels are given from the highest rate down and from the lowest precision up.
pub fn create_ascii_scatter_plot(
    engine_name: &str,
    dataset_name: &str,
    points: &[(usize, usize)],
    rates: &[String],
    precisions: &[String],
) -> (r: Vec<String>)
    requires
        rates@.len() == PLOT_HEIGHT,
        precisions@.len() == 4,
    ensures
        text::texts_view(r@) == plot_lines(
            engine_name@,
            dataset_name@,
            points@,
            text::texts_view(rates@),
            text::texts_view(precisions@),
        ),
{
    let ghost rate_views = text::texts_view(rates@);
    let ghost precision_views = text::texts_view(precisions@);
    let mut r: Vec<String> = Vec::new();
    r.push(new_plot_title(engine_name, dataset_name));
    let mut i: usize = 0;
    while i < PLOT_HEIGHT
        invariant
            i <= PLOT_HEIGHT,
            rates@.len() == PLOT_HEIGHT,
            rate_views == text::texts_view(rates@),
            r@.len() == i + 1,
            r@[0]@ == plot_title(engine_name@, dataset_name@),
            forall|j: int|
                1 <= j < i + 1 ==> (#[trigger] r@[j])@ == right_in(rate_views[j - 1], 8)
                    + " \u{2502}"@ + plot_line(points@, j - 1),
        decreases PLOT_HEIGHT - i,
    {
        let mut line: String = pad_left(rates[i].as_str(), 8);
        line.append(" \u{2502}");
        line.append(draw_line(points, i).as_str());
        r.push(line);
        i += 1;
    }
    let mut axis: String = "         \u{2514}".to_owned();
    axis.append(repeat_char('\u{2500}', PLOT_WIDTH).as_str());
    r.push(axis);
    let mut labels: String = "          ".to_owned();
    labels.append(pad_right(precisions[0].as_str(), 15).as_str());
    labels.append(pad_right(precisions[1].as_str(), 15).as_str());
    labels.append(pad_right(precisions[2].as_str(), 15).as_str());
    labels.append(pad_right(precisions[3].as_str(), 15).as_str());
    r.push(labels);
    let mut below: String = repeat_char(' ', 8);
    below.append("Precision (0.0 = 0%, 1.0 = 100%)");
    r.push(below);
    assert(precision_views[0] == precisions@[0]@);
    assert(text::texts_view(r@) =~= plot_lines(
        engine_name@,
        dataset_name@,
        points@,
        rate_views,
        precision_views,
    ));
    r
}

} // verus!
