//! One generic panel renderer.
//!
//! Every forecast panel is the same picture with different data: a
//! coloured header label, a grid with axis labels, and one or more
//! series drawn over it. A panel is described declaratively by its
//! layout values and a list of [`PanelSeries`], and rendered by
//! [`render_panel`]; the per-forecast builders only assemble
//! descriptors. Series values handed to a panel are relative to the
//! panel's range start (a value `v` sits `v` axis units above the
//! bottom grid line).

use crate::canvas::{Canvas, MAX_CANVAS_AREA};
use crate::chart::{
    axis_marks_region, bars_cover, chart_height, chart_width, hlines_cover, in_vertical_range,
    line_covers, AxisGridLabels, Chart, GradientBars, HorizontalLines, Line, SolidBars,
};
use crate::gradient::{colour_in_gradient, GradientPoint};
use crate::drawing::{MarkIntervals, Padding, Spacing};
use crate::error::Error;
use crate::gradient::{MultiPointGradient, Rgb};
use crate::range::Range;
use crate::text::{segments_chars, spec_last_line, RasterFont, TextBox, TextSegment};
use vstd::prelude::*;

verus! {

/// How one series is drawn.
pub enum SeriesStyle {
    /// Straight segments between consecutive points.
    Line(Rgb),
    /// One flat-coloured bar per point.
    Bars(Rgb),
    /// One bar per point, coloured by pixel height from a gradient.
    ShadedBars(MultiPointGradient),
    /// A thin reference mark at each point's value.
    Marks(Rgb),
}

impl SeriesStyle {
    /// Gradients carried by a style are well formed.
    pub open spec fn wf(&self) -> bool {
        match self {
            SeriesStyle::ShadedBars(g) => g.wf(),
            _ => true,
        }
    }
}

/// One series of a panel: a style and its values, relative to the
/// panel's range start.
pub struct PanelSeries {
    pub style: SeriesStyle,
    pub data: Vec<i32>,
}

impl PanelSeries {
    /// The series fits the panel: connected lines supply one value per
    /// slot boundary and may be clamped; bars and marks supply one
    /// value per slot, already inside the range, and need one column of
    /// right padding for the final slot boundary of a line.
    pub open spec fn fits(&self, point_count: int, range_len: int, pad_right: int) -> bool {
        match self.style {
            SeriesStyle::Line(_) => self.data@.len() == point_count && 1 <= pad_right,
            _ => self.data@.len() + 1 == point_count && in_vertical_range(self.data@, range_len),
        }
    }
}

/// The pixel height of a panel's header label, from its text alone.
pub open spec fn label_height(
    header_font: &RasterFont,
    label_chars: Seq<char>,
    label_width: int,
) -> int {
    (1 + spec_last_line(header_font, label_chars, label_width, 0, 0, 2))
        * header_font.spec_line_height()
}

/// The padding of a panel once the header label's height is added
/// above.
pub open spec fn padded_above(
    padding: Padding,
    header_font: &RasterFont,
    label_chars: Seq<char>,
    label_width: int,
) -> Padding {
    Padding {
        above: (padding.above + label_height(header_font, label_chars, label_width)) as u32,
        ..padding
    }
}

/// The layout side of a panel rendering: positive spacing and range,
/// the canvas (label height included) under the area cap, and the
/// label inside the panel.
pub open spec fn layout_ok(
    point_count: int,
    range_len: int,
    spacing: Spacing,
    padding: Padding,
    label_chars: Seq<char>,
    label_width: int,
    header_font: &RasterFont,
) -> bool {
    let pad = padded_above(padding, header_font, label_chars, label_width);
    &&& 1 <= point_count
    &&& 1 <= range_len <= u32::MAX
    &&& 1 <= spacing.horizontal
    &&& 1 <= spacing.vertical
    &&& padding.above + label_height(header_font, label_chars, label_width) <= u32::MAX
    &&& 1 <= chart_width(point_count, spacing, pad)
    &&& chart_width(point_count, spacing, pad) * chart_height(range_len, spacing, pad)
        <= MAX_CANVAS_AREA
    &&& padding.left + label_width <= chart_width(point_count, spacing, pad)
}

/// Exactly when a panel renders: the layout fits and so does every
/// series.
pub open spec fn render_ok(
    point_count: int,
    range: Range,
    spacing: Spacing,
    padding: Padding,
    label_chars: Seq<char>,
    label_width: int,
    header_font: &RasterFont,
    series: Seq<PanelSeries>,
) -> bool {
    &&& layout_ok(point_count, range.spec_len(), spacing, padding, label_chars, label_width, header_font)
    &&& forall|j: int|
        0 <= j < series.len() ==> (#[trigger] series[j]).fits(
            point_count,
            range.spec_len(),
            padding.right as int,
        )
}

/// How one series paints, reduced to plain values: its style with any
/// gradient as its control points, and its data as a sequence.
pub enum PaintStyle {
    Line(Rgb),
    Bars(Rgb),
    ShadedBars(Seq<GradientPoint>),
    Marks(Rgb),
}

/// One series as the paint model sees it.
pub struct PaintSeries {
    pub style: PaintStyle,
    pub data: Seq<i32>,
}

/// The paint model of a series list.
pub open spec fn paint_view(series: Seq<PanelSeries>) -> Seq<PaintSeries> {
    series.map_values(
        |s: PanelSeries|
            PaintSeries {
                style: match s.style {
                    SeriesStyle::Line(c) => PaintStyle::Line(c),
                    SeriesStyle::Bars(c) => PaintStyle::Bars(c),
                    SeriesStyle::ShadedBars(g) => PaintStyle::ShadedBars(g@),
                    SeriesStyle::Marks(c) => PaintStyle::Marks(c),
                },
                data: s.data@,
            },
    )
}

/// The colour the series leave at pixel `(x, yb)` (up from the bottom):
/// the colour of the last series in the list that covers the pixel, a
/// line clamped to the range top, bars and marks at their values, and
/// shaded bars coloured from their gradient at the pixel's height.
/// `None` where no series paints.
pub open spec fn series_paint(
    series: Seq<PaintSeries>,
    range_len: int,
    spacing: Spacing,
    padding: Padding,
    x: int,
    yb: int,
) -> Option<Rgb>
    decreases series.len(),
{
    if series.len() == 0 {
        None
    } else {
        let s = series.last();
        let own: Option<Rgb> = match s.style {
            PaintStyle::Line(colour) => if line_covers(
                s.data,
                range_len - 1,
                spacing,
                padding,
                x,
                yb,
            ) {
                Some(colour)
            } else {
                None
            },
            PaintStyle::Bars(colour) => if bars_cover(s.data, spacing, padding, x, yb) {
                Some(colour)
            } else {
                None
            },
            PaintStyle::ShadedBars(points) => if bars_cover(s.data, spacing, padding, x, yb) {
                Some(colour_in_gradient(points, yb))
            } else {
                None
            },
            PaintStyle::Marks(colour) => if hlines_cover(s.data, spacing, padding, x, yb) {
                Some(colour)
            } else {
                None
            },
        };
        if own is Some {
            own
        } else {
            series_paint(series.drop_last(), range_len, spacing, padding, x, yb)
        }
    }
}

/// The pixels a panel's chrome may have painted (top-down coordinates):
/// the header label's box and the grid-and-labels region.
pub open spec fn panel_chrome_touched(
    point_count: int,
    range_len: int,
    spacing: Spacing,
    padding: Padding,
    label_chars: Seq<char>,
    label_width: int,
    vline: int,
    hline: int,
    vlabel: int,
    header_font: &RasterFont,
    font: &RasterFont,
    x: int,
    y: int,
) -> bool {
    let pad = padded_above(padding, header_font, label_chars, label_width);
    let width = chart_width(point_count, spacing, pad);
    let height = chart_height(range_len, spacing, pad);
    let lh = label_height(header_font, label_chars, label_width);
    ||| padding.left <= x < padding.left + label_width && padding.above <= y < padding.above + lh
    ||| axis_marks_region(
        width,
        height,
        range_len,
        point_count,
        spacing,
        pad,
        vline,
        hline,
        vlabel,
        font.spec_line_height() as int,
        x,
        y,
    )
}

/// Values stay far enough from the integer limits for range padding
/// and shifting.
pub open spec fn values_small(s: Seq<i32>) -> bool {
    forall|k: int| 0 <= k < s.len() ==> -0x1000_0000 <= #[trigger] s[k] <= 0x1000_0000
}

/// Margins stay far enough from the integer limits for layout sums.
pub open spec fn padding_small(p: Padding) -> bool {
    &&& p.above <= 0x100_0000
    &&& p.below <= 0x100_0000
    &&& p.left <= 0x100_0000
    &&& p.right <= 0x100_0000
}

/// The larger of `floor` and every value in the sequence.
pub open spec fn spec_max(s: Seq<i32>, floor: int) -> int
    decreases s.len(),
{
    if s.len() == 0 {
        floor
    } else {
        let m = spec_max(s.drop_last(), floor);
        if s.last() > m {
            s.last() as int
        } else {
            m
        }
    }
}

/// The smaller of `floor` and every value in the sequence.
pub open spec fn spec_min(s: Seq<i32>, floor: int) -> int
    decreases s.len(),
{
    if s.len() == 0 {
        floor
    } else {
        let m = spec_min(s.drop_last(), floor);
        if s.last() < m {
            s.last() as int
        } else {
            m
        }
    }
}

/// The largest of `floor` and the values of the series.
pub fn max_of(data: &Vec<i32>, floor: i32) -> (r: i32)
    ensures
        r == spec_max(data@, floor as int),
{
    let n = data.len();
    let mut r = floor;
    let mut i: usize = 0;
    proof {
        assert(data@.take(0) =~= Seq::<i32>::empty());
    }
    while i < n
        invariant
            n == data@.len(),
            i <= n,
            r == spec_max(data@.take(i as int), floor as int),
        decreases n - i,
    {
        proof {
            assert(data@.take(i as int + 1).drop_last() =~= data@.take(i as int));
            assert(data@.take(i as int + 1).last() == data@[i as int]);
        }
        let v = data[i];
        if v > r {
            r = v;
        }
        i += 1;
    }
    proof {
        assert(data@.take(n as int) =~= data@);
    }
    r
}

/// The smallest of `floor` and the values of the series.
pub fn min_of(data: &Vec<i32>, floor: i32) -> (r: i32)
    ensures
        r == spec_min(data@, floor as int),
{
    let n = data.len();
    let mut r = floor;
    let mut i: usize = 0;
    proof {
        assert(data@.take(0) =~= Seq::<i32>::empty());
    }
    while i < n
        invariant
            n == data@.len(),
            i <= n,
            r == spec_min(data@.take(i as int), floor as int),
        decreases n - i,
    {
        proof {
            assert(data@.take(i as int + 1).drop_last() =~= data@.take(i as int));
            assert(data@.take(i as int + 1).last() == data@[i as int]);
        }
        let v = data[i];
        if v < r {
            r = v;
        }
        i += 1;
    }
    proof {
        assert(data@.take(n as int) =~= data@);
    }
    r
}

/// `spec_max` never goes below its floor nor above any larger bound on
/// the values, and every value stays at or below it.
pub proof fn lemma_spec_max_bounds(s: Seq<i32>, floor: int)
    ensures
        floor <= spec_max(s, floor),
        forall|k: int| 0 <= k < s.len() ==> #[trigger] s[k] <= spec_max(s, floor),
        spec_max(s, floor) == floor || exists|k: int|
            0 <= k < s.len() && #[trigger] s[k] == spec_max(s, floor),
    decreases s.len(),
{
    if s.len() > 0 {
        lemma_spec_max_bounds(s.drop_last(), floor);
        assert forall|k: int| 0 <= k < s.len() implies #[trigger] s[k] <= spec_max(s, floor) by {
            if k < s.len() - 1 {
                assert(s.drop_last()[k] == s[k]);
            }
        }
        if spec_max(s, floor) != floor {
            if s.last() > spec_max(s.drop_last(), floor) {
                assert(s[s.len() - 1] == spec_max(s, floor));
            } else {
                let k = choose|k: int|
                    0 <= k < s.drop_last().len() && #[trigger] s.drop_last()[k] == spec_max(
                        s.drop_last(),
                        floor,
                    );
                assert(s[k] == spec_max(s, floor));
            }
        }
    }
}

/// `spec_min` mirrors `spec_max` downward.
pub proof fn lemma_spec_min_bounds(s: Seq<i32>, floor: int)
    ensures
        spec_min(s, floor) <= floor,
        forall|k: int| 0 <= k < s.len() ==> spec_min(s, floor) <= #[trigger] s[k],
        spec_min(s, floor) == floor || exists|k: int|
            0 <= k < s.len() && #[trigger] s[k] == spec_min(s, floor),
    decreases s.len(),
{
    if s.len() > 0 {
        lemma_spec_min_bounds(s.drop_last(), floor);
        assert forall|k: int| 0 <= k < s.len() implies spec_min(s, floor) <= #[trigger] s[k] by {
            if k < s.len() - 1 {
                assert(s.drop_last()[k] == s[k]);
            }
        }
        if spec_min(s, floor) != floor {
            if s.last() < spec_min(s.drop_last(), floor) {
                assert(s[s.len() - 1] == spec_min(s, floor));
            } else {
                let k = choose|k: int|
                    0 <= k < s.drop_last().len() && #[trigger] s.drop_last()[k] == spec_min(
                        s.drop_last(),
                        floor,
                    );
                assert(s[k] == spec_min(s, floor));
            }
        }
    }
}

/// Every value moved to be relative to the panel's range start.
pub fn shift_series(data: &Vec<i32>, start: i32) -> (r: Vec<i32>)
    requires
        forall|k: int|
            0 <= k < data@.len() ==> -0x2000_0000 <= #[trigger] data@[k] <= 0x2000_0000,
        -0x2000_0000 <= start <= 0x2000_0000,
    ensures
        r@.len() == data@.len(),
        forall|k: int| 0 <= k < data@.len() ==> #[trigger] r@[k] == data@[k] - start,
{
    let n = data.len();
    let mut r: Vec<i32> = Vec::new();
    let mut i: usize = 0;
    while i < n
        invariant
            n == data@.len(),
            i <= n,
            r@.len() == i,
            forall|k: int|
                0 <= k < data@.len() ==> -0x2000_0000 <= #[trigger] data@[k] <= 0x2000_0000,
            -0x2000_0000 <= start <= 0x2000_0000,
            forall|k: int| 0 <= k < i ==> #[trigger] r@[k] == data@[k] - start,
        decreases n - i,
    {
        r.push(data[i] - start);
        i += 1;
    }
    r
}

/// A percentage series scaled to fixed-point values.
pub fn percent_to_fixed(data: &Vec<u8>) -> (r: Vec<i32>)
    ensures
        r@.len() == data@.len(),
        forall|k: int| 0 <= k < data@.len() ==> #[trigger] r@[k] == data@[k] * 100,
{
    let n = data.len();
    let mut r: Vec<i32> = Vec::new();
    let mut i: usize = 0;
    while i < n
        invariant
            n == data@.len(),
            i <= n,
            r@.len() == i,
            forall|k: int| 0 <= k < i ==> #[trigger] r@[k] == data@[k] * 100,
        decreases n - i,
    {
        r.push(data[i] as i32 * 100);
        i += 1;
    }
    r
}

/// Whole-unit values small enough to scale by one hundred.
pub open spec fn units_small(s: Seq<i32>) -> bool {
    forall|k: int| 0 <= k < s.len() ==> -0x100_0000 <= #[trigger] s[k] <= 0x100_0000
}

/// A whole-unit series scaled to fixed-point values.
pub fn units_to_fixed(data: &Vec<i32>) -> (r: Vec<i32>)
    requires
        units_small(data@),
    ensures
        r@.len() == data@.len(),
        forall|k: int| 0 <= k < data@.len() ==> #[trigger] r@[k] == data@[k] * 100,
{
    let n = data.len();
    let mut r: Vec<i32> = Vec::new();
    let mut i: usize = 0;
    while i < n
        invariant
            n == data@.len(),
            i <= n,
            r@.len() == i,
            units_small(data@),
            forall|k: int| 0 <= k < i ==> #[trigger] r@[k] == data@[k] * 100,
        decreases n - i,
    {
        proof {
            assert(data@[i as int] * 100 <= 0x100_0000 * 100 && -0x100_0000 * 100 <= data@[i
                as int] * 100) by (nonlinear_arith)
                requires
                    -0x100_0000 <= data@[i as int] <= 0x100_0000,
            ;
        }
        r.push(data[i] * 100);
        i += 1;
    }
    r
}

/// Appending one segment appends its characters.
pub proof fn lemma_segments_chars_push(s: Seq<TextSegment>, x: TextSegment)
    ensures
        segments_chars(s.push(x)) == segments_chars(s) + x.text@,
    decreases s.len(),
{
    if s.len() == 0 {
        assert(s.push(x)[0] == x);
        assert(s.push(x).skip(1) =~= Seq::<TextSegment>::empty());
        assert(segments_chars(s.push(x)) == x.text@ + segments_chars(
            Seq::<TextSegment>::empty(),
        ));
        assert(x.text@ + Seq::<char>::empty() =~= segments_chars(s) + x.text@);
    } else {
        lemma_segments_chars_push(s.skip(1), x);
        assert(s.push(x).skip(1) =~= s.skip(1).push(x));
        assert(s.push(x)[0] == s[0]);
        assert(segments_chars(s.push(x)) == s[0].text@ + segments_chars(s.skip(1).push(x)));
        assert(segments_chars(s.push(x)) == s[0].text@ + (segments_chars(s.skip(1)) + x.text@));
        assert(s[0].text@ + (segments_chars(s.skip(1)) + x.text@) =~= (s[0].text@
            + segments_chars(s.skip(1))) + x.text@);
        assert(segments_chars(s) == s[0].text@ + segments_chars(s.skip(1)));
    }
}

/// Append one coloured run to a label under construction.
pub fn push_segment(label: &mut Vec<TextSegment>, text: &str, colour: Rgb)
    ensures
        segments_chars(final(label)@) == segments_chars(old(label)@) + text@,
{
    let segment = TextSegment::new(text, colour);
    proof {
        lemma_segments_chars_push(label@, segment);
    }
    label.push(segment);
}

/// Render one panel: an all-black canvas of the dictated size, the
/// header label in the top margin, the grid with its axis and tick
/// labels, and then every series in list order, later series drawn over
/// earlier ones.
pub fn render_panel(
    point_count: usize,
    range: Range,
    spacing: Spacing,
    padding: Padding,
    vertical_intervals: MarkIntervals,
    horizontal_intervals: MarkIntervals,
    times: Vec<u8>,
    labels_centered: bool,
    label: &Vec<TextSegment>,
    label_width: u32,
    series: Vec<PanelSeries>,
    font: &RasterFont,
    header_font: &RasterFont,
) -> (r: Result<Canvas, Error>)
    requires
        font.wf(),
        header_font.wf(),
        range.wf(),
        vertical_intervals.wf(),
        horizontal_intervals.wf(),
        forall|j: int| 0 <= j < series@.len() ==> (#[trigger] series@[j]).style.wf(),
    ensures
        r is Ok <==> render_ok(
            point_count as int,
            range,
            spacing,
            padding,
            segments_chars(label@),
            label_width as int,
            header_font,
            series@,
        ),
        r matches Ok(c) ==> c.wf() && c.spec_width() == chart_width(
            point_count as int,
            spacing,
            padding,
        ) && c.spec_height() == chart_height(range.spec_len(), spacing, padding) + label_height(
            header_font,
            segments_chars(label@),
            label_width as int,
        ),
        r matches Ok(c) ==> forall|x: int, yb: int|
            0 <= x < c.spec_width() && 0 <= yb < c.spec_height() && series_paint(
                paint_view(series@),
                range.spec_len(),
                spacing,
                padded_above(padding, header_font, segments_chars(label@), label_width as int),
                x,
                yb,
            ) is Some ==> #[trigger] c.spec_pixel_up(x, yb) == series_paint(
                paint_view(series@),
                range.spec_len(),
                spacing,
                padded_above(padding, header_font, segments_chars(label@), label_width as int),
                x,
                yb,
            )->0,
        r matches Ok(c) ==> forall|x: int, y: int|
            0 <= x < c.spec_width() && 0 <= y < c.spec_height() && !panel_chrome_touched(
                point_count as int,
                range.spec_len(),
                spacing,
                padding,
                segments_chars(label@),
                label_width as int,
                vertical_intervals.spec_line() as int,
                horizontal_intervals.spec_line() as int,
                vertical_intervals.spec_label() as int,
                header_font,
                font,
                x,
                y,
            ) && series_paint(
                paint_view(series@),
                range.spec_len(),
                spacing,
                padded_above(padding, header_font, segments_chars(label@), label_width as int),
                x,
                c.spec_height() - 1 - y,
            ) is None ==> #[trigger] c.spec_pixel(x, y) == (Rgb {
                red: 0u8,
                green: 0u8,
                blue: 0u8,
            }),
        r matches Err(e) ==> e is Unfriendly,
{
    let text_box = TextBox::new(label, header_font, label_width, 2);
    let ghost lh = label_height(header_font, segments_chars(label@), label_width as int);
    proof {
        assert(text_box.spec_height() == lh);
    }
    if (padding.above as u64) + (text_box.height() as u64) > u32::MAX as u64 {
        return Err(Error::custom_unfriendly("label outgrows the margin".to_owned()));
    }
    let pad = Padding { above: padding.above + text_box.height(), ..padding };
    let range_len64 = range.len();
    if range_len64 > u32::MAX as u64 {
        return Err(Error::custom_unfriendly("range too long".to_owned()));
    }
    let mut chart = match Chart::new(point_count, range_len64 as u32, spacing, pad) {
        Ok(chart) => chart,
        Err(e) => {
            return Err(e);
        },
    };
    if (padding.left as u64) + (label_width as u64) > chart.width() as u64 {
        return Err(Error::custom_unfriendly("label wider than the panel".to_owned()));
    }
    let range_len = range_len64 as u32;
    let ghost chart0 = chart;
    // Validate every series before anything is drawn.
    let n = series.len();
    let mut k: usize = 0;
    while k < n
        invariant
            chart.wf(),
            chart == chart0,
            n == series@.len(),
            k <= n,
            chart.spec_point_count() == point_count,
            chart.spec_range_len() == range.spec_len(),
            chart.spec_padding().right == padding.right,
            forall|j: int|
                0 <= j < k ==> (#[trigger] series@[j]).fits(
                    point_count as int,
                    range.spec_len(),
                    padding.right as int,
                ),
        decreases n - k,
    {
        let ok = match &series[k].style {
            SeriesStyle::Line(_) => series[k].data.len() == point_count && padding.right >= 1,
            _ => match chart.check_bar_series(&series[k].data) {
                Ok(_) => true,
                Err(_) => false,
            },
        };
        if !ok {
            proof {
                assert(!series@[k as int].fits(
                    point_count as int,
                    range.spec_len(),
                    padding.right as int,
                ));
            }
            return Err(Error::custom_unfriendly("series does not fit the panel".to_owned()));
        }
        k += 1;
    }
    match chart.draw_text_box(&text_box, header_font) {
        Ok(()) => {},
        Err(e) => {
            return Err(e);
        },
    }
    let ghost chart1 = chart;
    match chart.draw_axis_grid_labels(
        AxisGridLabels {
            vertical_intervals,
            horizontal_intervals,
            vertical_label_range: range,
            horizontal_labels: times,
            horizontal_labels_centered: labels_centered,
        },
        font,
    ) {
        Ok(()) => {},
        Err(e) => {
            return Err(e);
        },
    }
    let ghost chrome = chart;
    // Draw the validated series in order.
    let ghost all_series = series@;
    let ghost pad2 = padded_above(padding, header_font, segments_chars(label@), label_width as int);
    let ghost rli = range.spec_len();
    let mut series = series;
    let mut k: usize = 0;
    proof {
        assert(range_len as int <= range_len as int * spacing.vertical as int)
            by (nonlinear_arith)
            requires
                1 <= spacing.vertical,
                0 <= range_len,
        ;
        assert(chart.spec_canvas().spec_height() <= MAX_CANVAS_AREA) by (nonlinear_arith)
            requires
                chart.spec_canvas().spec_width() as int * chart.spec_canvas().spec_height() as int
                    <= MAX_CANVAS_AREA,
                chart.spec_canvas().spec_width() >= 1,
        ;
        assert(range_len <= MAX_CANVAS_AREA as u32);
        assert(all_series.take(0) =~= Seq::<PanelSeries>::empty());
        assert(paint_view(all_series.take(0)) =~= Seq::<PaintSeries>::empty());
        // everything outside the chrome's own region is still the fresh
        // canvas's black
        assert forall|x: int, y: int|
            0 <= x < chart.spec_canvas().spec_width() && 0 <= y < chart.spec_canvas().spec_height()
                && !panel_chrome_touched(
                point_count as int,
                rli,
                spacing,
                padding,
                segments_chars(label@),
                label_width as int,
                vertical_intervals.spec_line() as int,
                horizontal_intervals.spec_line() as int,
                vertical_intervals.spec_label() as int,
                header_font,
                font,
                x,
                y,
            ) implies chrome.spec_canvas().spec_pixel(x, y) == (Rgb {
            red: 0u8,
            green: 0u8,
            blue: 0u8,
        }) by {
            let hh = chart.spec_canvas().spec_height() as int;
            assert(chart1.spec_canvas().spec_pixel(x, y) == chart0.spec_canvas().spec_pixel(x, y));
            assert(chrome.spec_canvas().spec_pixel(x, y) == chart1.spec_canvas().spec_pixel(x, y));
            assert(chart0.spec_pixel_up(x, hh - 1 - y) == (Rgb { red: 0u8, green: 0u8, blue: 0u8 }));
        }
    }
    while k < n
        invariant
            chart.wf(),
            n == all_series.len(),
            k <= n,
            series@ == all_series.skip(k as int),
            chart.spec_point_count() == point_count,
            chart.spec_range_len() == range.spec_len(),
            chart.spec_range_len() == range_len,
            1 <= range_len <= 0x400_0000,
            rli == range.spec_len(),
            chart.spec_spacing() == spacing,
            chart.spec_padding() == pad2,
            pad2 == padded_above(
                padding,
                header_font,
                segments_chars(label@),
                label_width as int,
            ),
            chart.spec_padding().right == padding.right,
            chart.spec_canvas().spec_width() == chart_width(point_count as int, spacing, pad2),
            chart.spec_canvas().spec_height() == chart_height(range.spec_len(), spacing, pad2),
            chrome.spec_canvas().spec_width() == chart.spec_canvas().spec_width(),
            chrome.spec_canvas().spec_height() == chart.spec_canvas().spec_height(),
            forall|j: int| 0 <= j < n ==> (#[trigger] all_series[j]).style.wf(),
            forall|j: int|
                0 <= j < n ==> (#[trigger] all_series[j]).fits(
                    point_count as int,
                    range.spec_len(),
                    padding.right as int,
                ),
            forall|x: int, y: int|
                0 <= x < chart.spec_canvas().spec_width() && 0 <= y < chart.spec_canvas(
                ).spec_height() && !panel_chrome_touched(
                    point_count as int,
                    rli,
                    spacing,
                    padding,
                    segments_chars(label@),
                    label_width as int,
                    vertical_intervals.spec_line() as int,
                    horizontal_intervals.spec_line() as int,
                    vertical_intervals.spec_label() as int,
                    header_font,
                    font,
                    x,
                    y,
                ) ==> #[trigger] chrome.spec_canvas().spec_pixel(x, y) == (Rgb {
                    red: 0u8,
                    green: 0u8,
                    blue: 0u8,
                }),
            forall|x: int, yb: int|
                0 <= x < chart.spec_canvas().spec_width() && 0 <= yb < chart.spec_canvas(
                ).spec_height() && series_paint(
                    paint_view(all_series.take(k as int)),
                    rli,
                    spacing,
                    pad2,
                    x,
                    yb,
                ) is Some ==> #[trigger] chart.spec_pixel_up(x, yb) == series_paint(
                    paint_view(all_series.take(k as int)),
                    rli,
                    spacing,
                    pad2,
                    x,
                    yb,
                )->0,
            forall|x: int, yb: int|
                0 <= x < chart.spec_canvas().spec_width() && 0 <= yb < chart.spec_canvas(
                ).spec_height() && series_paint(
                    paint_view(all_series.take(k as int)),
                    rli,
                    spacing,
                    pad2,
                    x,
                    yb,
                ) is None ==> #[trigger] chart.spec_pixel_up(x, yb) == chrome.spec_pixel_up(x, yb),
        decreases n - k,
    {
        proof {
            assert(series@[0] == all_series[k as int]);
            assert(all_series.skip(k as int).remove(0) =~= all_series.skip(k as int + 1));
        }
        let ghost before = chart;
        let one = series.remove(0);
        let outcome = match one.style {
            SeriesStyle::Line(colour) => chart.draw_line(
                Line { colour, data: one.data, max: (range_len - 1) as i32 },
            ),
            SeriesStyle::Bars(colour) => chart.draw_solid_bars(
                SolidBars { colour, data: one.data },
            ),
            SeriesStyle::ShadedBars(gradient) => chart.draw_gradient_bars(
                GradientBars { gradient, data: one.data },
            ),
            SeriesStyle::Marks(colour) => chart.draw_horizontal_lines(
                HorizontalLines { colour, data: one.data },
            ),
        };
        match outcome {
            Ok(()) => {},
            Err(e) => {
                proof {
                    assert(one.style == all_series[k as int].style && one.data@
                        == all_series[k as int].data@);
                    assert(all_series[k as int].fits(
                        point_count as int,
                        range.spec_len(),
                        padding.right as int,
                    ));
                    assert(false);
                }
                return Err(e);
            },
        }
        proof {
            let pv_k = paint_view(all_series.take(k as int));
            let pv_k1 = paint_view(all_series.take(k as int + 1));
            assert(all_series.take(k as int + 1).drop_last() =~= all_series.take(k as int));
            assert(pv_k1.drop_last() =~= pv_k);
            assert(pv_k1.last().data == all_series[k as int].data@);
            let ww = chart.spec_canvas().spec_width() as int;
            let hh = chart.spec_canvas().spec_height() as int;
            assert forall|x: int, yb: int|
                0 <= x < ww && 0 <= yb < hh && series_paint(pv_k1, rli, spacing, pad2, x, yb)
                    is Some implies #[trigger] chart.spec_pixel_up(x, yb) == series_paint(
                pv_k1,
                rli,
                spacing,
                pad2,
                x,
                yb,
            )->0 by {
                assert(chart.spec_pixel_up(x, yb) == chart.spec_canvas().spec_pixel_up(x, yb));
            }
            assert forall|x: int, yb: int|
                0 <= x < ww && 0 <= yb < hh && series_paint(pv_k1, rli, spacing, pad2, x, yb)
                    is None implies #[trigger] chart.spec_pixel_up(x, yb) == chrome.spec_pixel_up(
                x,
                yb,
            ) by {
                assert(chart.spec_pixel_up(x, yb) == chart.spec_canvas().spec_pixel_up(x, yb));
            }
        }
        k += 1;
    }
    proof {
        assert(all_series.skip(n as int) =~= Seq::<PanelSeries>::empty());
        assert(all_series.take(n as int) =~= all_series);
    }
    let ghost final_chart = chart;
    let canvas = chart.into_canvas();
    proof {
        let ww = canvas.spec_width() as int;
        let hh = canvas.spec_height() as int;
        assert forall|x: int, yb: int|
            0 <= x < ww && 0 <= yb < hh && series_paint(
                paint_view(all_series),
                rli,
                spacing,
                pad2,
                x,
                yb,
            ) is Some implies #[trigger] canvas.spec_pixel_up(x, yb) == series_paint(
            paint_view(all_series),
            rli,
            spacing,
            pad2,
            x,
            yb,
        )->0 by {
            assert(final_chart.spec_pixel_up(x, yb) == series_paint(
                paint_view(all_series.take(n as int)),
                rli,
                spacing,
                pad2,
                x,
                yb,
            )->0);
        }
        assert forall|x: int, y: int|
            0 <= x < ww && 0 <= y < hh && !panel_chrome_touched(
                point_count as int,
                rli,
                spacing,
                padding,
                segments_chars(label@),
                label_width as int,
                vertical_intervals.spec_line() as int,
                horizontal_intervals.spec_line() as int,
                vertical_intervals.spec_label() as int,
                header_font,
                font,
                x,
                y,
            ) && series_paint(paint_view(all_series), rli, spacing, pad2, x, hh - 1 - y)
            is None implies #[trigger] canvas.spec_pixel(x, y) == (Rgb {
            red: 0u8,
            green: 0u8,
            blue: 0u8,
        }) by {
            assert(final_chart.spec_pixel_up(x, hh - 1 - y) == chrome.spec_pixel_up(x, hh - 1 - y));
            assert(chrome.spec_pixel_up(x, hh - 1 - y) == chrome.spec_canvas().spec_pixel(x, y));
            assert(chrome.spec_canvas().spec_pixel(x, y) == (Rgb {
                red: 0u8,
                green: 0u8,
                blue: 0u8,
            }));
        }
    }
    Ok(canvas)
}

} // verus!
