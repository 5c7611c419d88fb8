//! The daily chart: an SVG line chart of the daily counts. Its coordinates
//! are floating-point figures that the caller computes and writes with two
//! decimals; the markup around them, which points are labelled and the
//! scale's top are decided here.
use vstd::prelude::*;

use crate::report::DailyCount;
use crate::text::{escape_html, escaped_html, format_i64, int_text};

verus! {

/// The largest count of `days` (which must not be empty).
pub open spec fn max_count(days: Seq<DailyCount>) -> int
    decreases days.len(),
{
    if days.len() <= 1 {
        days[0].count as int
    } else {
        let prev = max_count(days.drop_last());
        if days.last().count > prev {
            days.last().count as int
        } else {
            prev
        }
    }
}

/// The count at the top of the chart's scale: the largest daily count, but
/// at least 1.
pub open spec fn chart_peak_value(days: Seq<DailyCount>) -> int {
    if days.len() == 0 || max_count(days) < 1 {
        1
    } else {
        max_count(days)
    }
}

/// No day of `days` counts more than `max_count(days)`, and some day counts
/// exactly that much.
proof fn lemma_max_count_is_largest(days: Seq<DailyCount>)
    requires
        days.len() > 0,
    ensures
        forall|k: int| 0 <= k < days.len() ==> (#[trigger] days[k]).count <= max_count(days),
        exists|k: int| 0 <= k < days.len() && (#[trigger] days[k]).count == max_count(days),
    decreases days.len(),
{
    if days.len() > 1 {
        let rest = days.drop_last();
        lemma_max_count_is_largest(rest);
        assert forall|k: int| 0 <= k < days.len() implies (#[trigger] days[k]).count <= max_count(days) by {
            if k < rest.len() {
                assert(days[k] == rest[k]);
            }
        }
        if days.last().count > max_count(rest) {
            assert(days[days.len() - 1].count == max_count(days));
        } else {
            let j = choose|j: int| 0 <= j < rest.len() && (#[trigger] rest[j]).count == max_count(rest);
            assert(days[j] == rest[j]);
        }
    } else {
        assert(days[0].count == max_count(days));
    }
}

/// The top of the chart's scale is at least 1 and at least every day's
/// count; when some day counts 1 or more, it is the count of such a day.
pub proof fn lemma_chart_peak_bounds_every_day(days: Seq<DailyCount>)
    ensures
        chart_peak_value(days) >= 1,
        forall|k: int| 0 <= k < days.len() ==> (#[trigger] days[k]).count <= chart_peak_value(days),
        (exists|k: int| 0 <= k < days.len() && (#[trigger] days[k]).count >= 1) ==> exists|k: int|
            0 <= k < days.len() && (#[trigger] days[k]).count == chart_peak_value(days),
        chart_peak_value(days) == 1 || exists|k: int|
            0 <= k < days.len() && (#[trigger] days[k]).count == chart_peak_value(days),
{
    if days.len() > 0 {
        lemma_max_count_is_largest(days);
    }
}

/// The count at the top of the chart's scale: the largest daily count, but
/// at least 1.
pub fn chart_peak(days: &Vec<DailyCount>) -> (peak: i64)
    ensures
        peak == chart_peak_value(days@),
        peak >= 1,
        forall|k: int| 0 <= k < days@.len() ==> (#[trigger] days@[k]).count <= peak,
        peak == 1 || exists|k: int| 0 <= k < days@.len() && (#[trigger] days@[k]).count == peak,
{
    proof {
        lemma_chart_peak_bounds_every_day(days@);
    }
    if days.len() == 0 {
        return 1;
    }
    let mut m = days[0].count;
    let mut i: usize = 1;
    while i < days.len()
        invariant
            1 <= i <= days@.len(),
            m == max_count(days@.take(i as int)),
        decreases days@.len() - i,
    {
        proof {
            assert(days@.take(i + 1).drop_last() =~= days@.take(i as int));
        }
        if days[i].count > m {
            m = days[i].count;
        }
        i = i + 1;
    }
    proof {
        assert(days@.take(days@.len() as int) =~= days@);
    }
    if m < 1 {
        1
    } else {
        m
    }
}

/// How many days apart the chart labels its x axis: a sixth of the days,
/// rounded up, and at least 1.
pub open spec fn label_stride_value(days: int) -> int {
    if days <= 0 {
        1
    } else {
        (days + 5) / 6
    }
}

/// How many days apart the chart labels its x axis.
pub fn chart_label_stride(days: usize) -> (stride: usize)
    ensures
        stride == label_stride_value(days as int),
        stride >= 1,
{
    if days == 0 {
        1
    } else {
        days / 6 + if days % 6 == 0 { 0 } else { 1 }
    }
}

/// Whether the chart writes the date under the point at `index` of `days`
/// points: every `stride`-th point, and the last one.
pub fn chart_labels_point(index: usize, days: usize, stride: usize) -> (labelled: bool)
    requires
        stride >= 1,
    ensures
        labelled == (index % stride == 0 || index + 1 == days),
{
    index % stride == 0 || (index < usize::MAX && index + 1 == days)
}

/// Where one day's point stands, written with two decimals: its x and y
/// coordinates and the delay (in seconds) before its dot appears.
pub struct ChartPoint {
    pub x: String,
    pub y: String,
    pub delay: String,
}

/// The chart when there are no days.
pub const EMPTY_CHART: &'static str = "<div class=\"empty\">没有聊天输入数据。</div>";

/// The y coordinate of the grid line at `step` (0 at the bottom, 4 at the top).
pub open spec fn grid_y_text(step: int) -> Seq<char> {
    if step == 0 {
        "176.00"@
    } else if step == 1 {
        "137.00"@
    } else if step == 2 {
        "98.00"@
    } else if step == 3 {
        "59.00"@
    } else {
        "20.00"@
    }
}

/// The y coordinate of the scale value at `step`.
pub open spec fn grid_label_y_text(step: int) -> Seq<char> {
    if step == 0 {
        "180.00"@
    } else if step == 1 {
        "141.00"@
    } else if step == 2 {
        "102.00"@
    } else if step == 3 {
        "63.00"@
    } else {
        "24.00"@
    }
}

fn grid_y(step: usize) -> (text: &'static str)
    requires
        step <= 4,
    ensures
        text@ == grid_y_text(step as int),
{
    if step == 0 {
        "176.00"
    } else if step == 1 {
        "137.00"
    } else if step == 2 {
        "98.00"
    } else if step == 3 {
        "59.00"
    } else {
        "20.00"
    }
}

fn grid_label_y(step: usize) -> (text: &'static str)
    requires
        step <= 4,
    ensures
        text@ == grid_label_y_text(step as int),
{
    if step == 0 {
        "180.00"
    } else if step == 1 {
        "141.00"
    } else if step == 2 {
        "102.00"
    } else if step == 3 {
        "63.00"
    } else {
        "24.00"
    }
}

/// The line command of the point at `index`: a move for the first point, a
/// line to it for the others.
pub open spec fn path_piece(index: int, p: ChartPoint) -> Seq<char> {
    (if index == 0 { "M "@ } else { "L "@ }) + p.x@ + " "@ + p.y@ + " "@
}

/// The line to a point in the filled area's outline.
pub open spec fn fill_piece(p: ChartPoint) -> Seq<char> {
    "L "@ + p.x@ + " "@ + p.y@ + " "@
}

/// The dot of a day, with its date and count as a tooltip.
pub open spec fn circle_piece(day: DailyCount, p: ChartPoint) -> Seq<char> {
    "<circle class=\"chart-dot\" style=\"animation-delay:"@ + p.delay@ + "s\" cx=\""@ + p.x@
        + "\" cy=\""@ + p.y@ + "\" r=\"4\" fill=\"#00a6a6\" /><title>"@ + escaped_html(day.label@)
        + "：你这一天骂了 AI "@ + int_text(day.count as int) + " 次！</title>"@
}

/// The date written under a day's point.
pub open spec fn x_label_piece(day: DailyCount, p: ChartPoint) -> Seq<char> {
    "<text x=\""@ + p.x@ + "\" y=\"208.00\" text-anchor=\"middle\" fill=\"#5e6b78\" font-size=\"11\">"@
        + escaped_html(day.label@) + "</text>"@
}

/// The line through the first `n` points.
pub open spec fn line_path_text(points: Seq<ChartPoint>, n: int) -> Seq<char>
    decreases n,
{
    if n <= 0 {
        Seq::empty()
    } else {
        line_path_text(points, n - 1) + path_piece(n - 1, points[n - 1])
    }
}

/// The outline of the filled area under the first `n` points, without its
/// start and end.
pub open spec fn fill_path_text(points: Seq<ChartPoint>, n: int) -> Seq<char>
    decreases n,
{
    if n <= 0 {
        Seq::empty()
    } else {
        fill_path_text(points, n - 1) + fill_piece(points[n - 1])
    }
}

/// The dots of the first `n` days.
pub open spec fn circles_text(days: Seq<DailyCount>, points: Seq<ChartPoint>, n: int) -> Seq<char>
    decreases n,
{
    if n <= 0 {
        Seq::empty()
    } else {
        circles_text(days, points, n - 1) + circle_piece(days[n - 1], points[n - 1])
    }
}

/// The dates under those of the first `n` of `total` days that are labelled.
pub open spec fn x_labels_text(days: Seq<DailyCount>, points: Seq<ChartPoint>, n: int) -> Seq<char>
    decreases n,
{
    if n <= 0 {
        Seq::empty()
    } else {
        let k = n - 1;
        let stride = label_stride_value(days.len() as int);
        x_labels_text(days, points, k) + if k % stride == 0 || k + 1 == days.len() {
            x_label_piece(days[k], points[k])
        } else {
            Seq::empty()
        }
    }
}

/// The grid line and scale value at `step`.
pub open spec fn grid_piece(step: int, value: i64) -> Seq<char> {
    "<line x1=\"56.00\" y1=\""@ + grid_y_text(step) + "\" x2=\"1060.00\" y2=\""@ + grid_y_text(step)
        + "\" stroke=\"#d9e7ee\" stroke-width=\"1\" />\n<text x=\"12\" y=\""@ + grid_label_y_text(step)
        + "\" fill=\"#5e6b78\" font-size=\"11\">"@ + int_text(value as int) + "</text>"@
}

/// The first `n` grid lines.
pub open spec fn grid_text(values: Seq<i64>, n: int) -> Seq<char>
    decreases n,
{
    if n <= 0 {
        Seq::empty()
    } else {
        grid_text(values, n - 1) + grid_piece(n - 1, values[n - 1])
    }
}

/// The chart of `days`, each drawn at the point of the same index, with the
/// scale values `grid_values` from the bottom grid line to the top one.
pub open spec fn chart_text(days: Seq<DailyCount>, points: Seq<ChartPoint>, grid_values: Seq<i64>) -> Seq<char> {
    if days.len() == 0 {
        EMPTY_CHART@
    } else {
        let n = days.len() as int;
        "<svg viewBox=\"0 0 1080 220\" width=\"100%\" role=\"img\" aria-label=\"daily profanity chart\">\n  <rect x=\"56\" y=\"20\" width=\"1004\" height=\"156\" rx=\"8\" fill=\"rgba(255,255,255,0.88)\" />\n  "@
            + grid_text(grid_values, 5) + "\n  <path class=\"chart-fill\" d=\""@ + "M 56.00 176.00 "@
            + fill_path_text(points, n) + "L 1060.00 176.00 Z"@
            + "\" fill=\"rgba(255,90,95,0.16)\" />\n  <path class=\"chart-line\" d=\""@ + line_path_text(points, n)
            + "\" fill=\"none\" stroke=\"#ff5a5f\" stroke-width=\"3\" stroke-linecap=\"round\" stroke-linejoin=\"round\" />\n  "@
            + circles_text(days, points, n) + "\n  "@ + x_labels_text(days, points, n) + "\n</svg>"@
    }
}

/// The SVG chart of `days`, each drawn at the point of the same index, with
/// the scale values `grid_values` from the bottom grid line to the top one.
pub fn render_line_chart(days: &Vec<DailyCount>, points: &Vec<ChartPoint>, grid_values: &Vec<i64>) -> (svg: String)
    requires
        points@.len() == days@.len(),
        grid_values@.len() == 5,
    ensures
        svg@ == chart_text(days@, points@, grid_values@),
{
    if days.len() == 0 {
        return String::from_str(EMPTY_CHART);
    }
    let n = days.len();
    let stride = chart_label_stride(n);
    let mut path = String::new();
    let mut fill = String::new();
    let mut circles = String::new();
    let mut x_labels = String::new();
    let mut k: usize = 0;
    while k < n
        invariant
            k <= n == days@.len() == points@.len(),
            stride == label_stride_value(n as int),
            path@ == line_path_text(points@, k as int),
            fill@ == fill_path_text(points@, k as int),
            circles@ == circles_text(days@, points@, k as int),
            x_labels@ == x_labels_text(days@, points@, k as int),
        decreases n - k,
    {
        let point = &points[k];
        let day = &days[k];
        if k == 0 {
            path.append("M ");
        } else {
            path.append("L ");
        }
        path.append(point.x.as_str());
        path.append(" ");
        path.append(point.y.as_str());
        path.append(" ");
        fill.append("L ");
        fill.append(point.x.as_str());
        fill.append(" ");
        fill.append(point.y.as_str());
        fill.append(" ");
        let label = escape_html(day.label.as_str());
        let count = format_i64(day.count);
        circles.append("<circle class=\"chart-dot\" style=\"animation-delay:");
        circles.append(point.delay.as_str());
        circles.append("s\" cx=\"");
        circles.append(point.x.as_str());
        circles.append("\" cy=\"");
        circles.append(point.y.as_str());
        circles.append("\" r=\"4\" fill=\"#00a6a6\" /><title>");
        circles.append(label.as_str());
        circles.append("：你这一天骂了 AI ");
        circles.append(count.as_str());
        circles.append(" 次！</title>");
        if chart_labels_point(k, n, stride) {
            x_labels.append("<text x=\"");
            x_labels.append(point.x.as_str());
            x_labels.append("\" y=\"208.00\" text-anchor=\"middle\" fill=\"#5e6b78\" font-size=\"11\">");
            x_labels.append(label.as_str());
            x_labels.append("</text>");
        }
        k = k + 1;
    }
    let mut grid = String::new();
    let mut step: usize = 0;
    while step < 5
        invariant
            step <= 5,
            grid_values@.len() == 5,
            grid@ == grid_text(grid_values@, step as int),
        decreases 5 - step,
    {
        let value = format_i64(grid_values[step]);
        grid.append("<line x1=\"56.00\" y1=\"");
        grid.append(grid_y(step));
        grid.append("\" x2=\"1060.00\" y2=\"");
        grid.append(grid_y(step));
        grid.append("\" stroke=\"#d9e7ee\" stroke-width=\"1\" />\n<text x=\"12\" y=\"");
        grid.append(grid_label_y(step));
        grid.append("\" fill=\"#5e6b78\" font-size=\"11\">");
        grid.append(value.as_str());
        grid.append("</text>");
        step = step + 1;
    }
    let mut svg = String::from_str(
        "<svg viewBox=\"0 0 1080 220\" width=\"100%\" role=\"img\" aria-label=\"daily profanity chart\">\n  <rect x=\"56\" y=\"20\" width=\"1004\" height=\"156\" rx=\"8\" fill=\"rgba(255,255,255,0.88)\" />\n  ",
    );
    svg.append(grid.as_str());
    svg.append("\n  <path class=\"chart-fill\" d=\"");
    svg.append("M 56.00 176.00 ");
    svg.append(fill.as_str());
    svg.append("L 1060.00 176.00 Z");
    svg.append("\" fill=\"rgba(255,90,95,0.16)\" />\n  <path class=\"chart-line\" d=\"");
    svg.append(path.as_str());
    svg.append(
        "\" fill=\"none\" stroke=\"#ff5a5f\" stroke-width=\"3\" stroke-linecap=\"round\" stroke-linejoin=\"round\" />\n  ",
    );
    svg.append(circles.as_str());
    svg.append("\n  ");
    svg.append(x_labels.as_str());
    svg.append("\n</svg>");
    svg
}

/// The scale value at `step` (0 at the bottom, 4 at the top) of a chart
/// whose top is `peak`: `peak * step / 4` rounded to the nearest whole
/// number, halves away from zero.
pub open spec fn grid_value(peak: int, step: int) -> int {
    (peak * step + 2) / 4
}

/// The largest peak for which the scale values computed in `f64` are exact:
/// every product `peak * step / 4` for steps 0 to 4 is then a number that
/// `f64` holds exactly (three times the peak is at most 2^53), so rounding
/// it gives `grid_value`.
pub const EXACT_PEAK_LIMIT: i64 = 3_002_399_751_580_330;

/// The five scale values of a chart whose top is `peak`, from the bottom
/// grid line to the top one. For peaks up to `EXACT_PEAK_LIMIT` these are
/// the values that rounding `peak as f64 * (step as f64 / 4.0)` gives.
pub fn chart_grid_values(peak: i64) -> (values: Vec<i64>)
    requires
        0 <= peak <= EXACT_PEAK_LIMIT,
    ensures
        values@.len() == 5,
        forall|k: int| 0 <= k < 5 ==> #[trigger] values@[k] == grid_value(peak as int, k),
{
    let mut values: Vec<i64> = Vec::new();
    values.push(2 / 4);
    values.push((peak + 2) / 4);
    values.push((2 * peak + 2) / 4);
    values.push((3 * peak + 2) / 4);
    values.push((4 * peak + 2) / 4);
    proof {
        assert(values@[0] == grid_value(peak as int, 0));
        assert(values@[1] == grid_value(peak as int, 1));
        assert(values@[2] == grid_value(peak as int, 2));
        assert(values@[3] == grid_value(peak as int, 3));
        assert(values@[4] == grid_value(peak as int, 4));
    }
    values
}

} // verus!
