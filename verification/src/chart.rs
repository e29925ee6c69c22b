//! One panel's canvas and the primitives that draw onto it.
//!
//! A [`Chart`] owns a canvas sized from a data-point count, a value
//! range length, spacing and padding. Primitives draw in call order;
//! later draws composite over earlier ones. Vertical positions in the
//! drawing contracts are measured upward from the canvas bottom: a data
//! value `v` (relative to the range start) sits `padding.below +
//! v * spacing.vertical` pixels up. Width convention: a panel has
//! `point_count` slots; series drawn as connected lines supply one value
//! per slot boundary (`data.len() == point_count`), series drawn as bars
//! or per-point marks supply one value per slot
//! (`data.len() + 1 == point_count`), keeping a trailing margin.

use crate::canvas::{blend_colour, Canvas, MAX_CANVAS_AREA};
use crate::drawing::{MarkIntervals, Padding, Spacing};
use crate::error::Error;
use crate::gradient::{colour_in_gradient, MultiPointGradient, Rgb};
use crate::range::Range;
use crate::text::{glyph_index_in, lemma_glyph_index_valid, Glyph, PlacedGlyph, RasterFont, TextBox};
use vstd::prelude::*;

verus! {

/// Canvas width for a panel of `point_count` slots.
pub open spec fn chart_width(point_count: int, spacing: Spacing, padding: Padding) -> int {
    (point_count - 1) * spacing.horizontal + padding.left + padding.right
}

/// Canvas height for a panel whose value range has `range_len` units.
pub open spec fn chart_height(range_len: int, spacing: Spacing, padding: Padding) -> int {
    range_len * spacing.vertical + padding.above + padding.below
}

/// Every value lies inside the panel's value range.
pub open spec fn in_vertical_range(data: Seq<i32>, range_len: int) -> bool {
    forall|k: int| 0 <= k < data.len() ==> 0 <= #[trigger] data[k] <= range_len - 1
}

/// Pixel `(x, yb)` (measured up from the bottom) lies in the bar drawn
/// for some data point: bar `k` fills horizontal slot `k` from the
/// baseline up to its value.
pub open spec fn bars_cover(
    data: Seq<i32>,
    spacing: Spacing,
    padding: Padding,
    x: int,
    yb: int,
) -> bool {
    exists|k: int|
        0 <= k < data.len() && padding.left + k * spacing.horizontal <= x < padding.left + (k + 1)
            * spacing.horizontal && padding.below <= yb < padding.below + #[trigger] data[k]
            * spacing.vertical
}

/// Adding bar `k` to the first `k` bars covers exactly the old region
/// plus bar `k`'s own rectangle.
proof fn lemma_bars_cover_step(
    data: Seq<i32>,
    spacing: Spacing,
    padding: Padding,
    k: int,
    x: int,
    yb: int,
)
    requires
        0 <= k < data.len(),
    ensures
        bars_cover(data.take(k + 1), spacing, padding, x, yb) <==> (bars_cover(
            data.take(k),
            spacing,
            padding,
            x,
            yb,
        ) || (padding.left + k * spacing.horizontal <= x < padding.left + (k + 1)
            * spacing.horizontal && padding.below <= yb < padding.below + data[k]
            * spacing.vertical)),
{
    if bars_cover(data.take(k + 1), spacing, padding, x, yb) {
        let kk = choose|kk: int|
            0 <= kk < data.take(k + 1).len() && padding.left + kk * spacing.horizontal <= x
                < padding.left + (kk + 1) * spacing.horizontal && padding.below <= yb
                < padding.below + #[trigger] data.take(k + 1)[kk] * spacing.vertical;
        if kk < k {
            assert(data.take(k)[kk] == data.take(k + 1)[kk]);
        }
    }
    if bars_cover(data.take(k), spacing, padding, x, yb) {
        let kk = choose|kk: int|
            0 <= kk < data.take(k).len() && padding.left + kk * spacing.horizontal <= x
                < padding.left + (kk + 1) * spacing.horizontal && padding.below <= yb
                < padding.below + #[trigger] data.take(k)[kk] * spacing.vertical;
        assert(data.take(k + 1)[kk] == data.take(k)[kk]);
    }
    if padding.left + k * spacing.horizontal <= x < padding.left + (k + 1) * spacing.horizontal
        && padding.below <= yb < padding.below + data[k] * spacing.vertical {
        assert(data.take(k + 1)[k] == data[k]);
    }
}

/// Pixel `(x, yb)` lies on the one-pixel-high reference mark drawn for
/// some data point: mark `k` spans horizontal slot `k` at its value's
/// height.
pub open spec fn hlines_cover(
    data: Seq<i32>,
    spacing: Spacing,
    padding: Padding,
    x: int,
    yb: int,
) -> bool {
    exists|k: int|
        0 <= k < data.len() && padding.left + k * spacing.horizontal <= x < padding.left + (k + 1)
            * spacing.horizontal && yb == padding.below + #[trigger] data[k] * spacing.vertical
}

/// Adding mark `k` to the first `k` marks covers exactly the old region
/// plus mark `k`'s own row.
proof fn lemma_hlines_cover_step(
    data: Seq<i32>,
    spacing: Spacing,
    padding: Padding,
    k: int,
    x: int,
    yb: int,
)
    requires
        0 <= k < data.len(),
    ensures
        hlines_cover(data.take(k + 1), spacing, padding, x, yb) <==> (hlines_cover(
            data.take(k),
            spacing,
            padding,
            x,
            yb,
        ) || (padding.left + k * spacing.horizontal <= x < padding.left + (k + 1)
            * spacing.horizontal && yb == padding.below + data[k] * spacing.vertical)),
{
    if hlines_cover(data.take(k + 1), spacing, padding, x, yb) {
        let kk = choose|kk: int|
            0 <= kk < data.take(k + 1).len() && padding.left + kk * spacing.horizontal <= x
                < padding.left + (kk + 1) * spacing.horizontal && yb == padding.below
                + #[trigger] data.take(k + 1)[kk] * spacing.vertical;
        if kk < k {
            assert(data.take(k)[kk] == data.take(k + 1)[kk]);
        }
    }
    if hlines_cover(data.take(k), spacing, padding, x, yb) {
        let kk = choose|kk: int|
            0 <= kk < data.take(k).len() && padding.left + kk * spacing.horizontal <= x
                < padding.left + (kk + 1) * spacing.horizontal && yb == padding.below
                + #[trigger] data.take(k)[kk] * spacing.vertical;
        assert(data.take(k + 1)[kk] == data.take(k)[kk]);
    }
    if padding.left + k * spacing.horizontal <= x < padding.left + (k + 1) * spacing.horizontal
        && yb == padding.below + data[k] * spacing.vertical {
        assert(data.take(k + 1)[k] == data[k]);
    }
}

/// A connected line series: one value per slot boundary, clamped to
/// `[0, max]` before pixel mapping.
pub struct Line {
    pub colour: Rgb,
    pub data: Vec<i32>,
    pub max: i32,
}

/// One flat-coloured vertical bar per data point.
pub struct SolidBars {
    pub colour: Rgb,
    pub data: Vec<i32>,
}

/// Like [`SolidBars`], but coloured row by row from a gradient keyed on
/// the absolute pixel height, so colour bands align across bars.
pub struct GradientBars {
    pub gradient: MultiPointGradient,
    pub data: Vec<i32>,
}

/// A thin horizontal reference mark at each data point's value.
pub struct HorizontalLines {
    pub colour: Rgb,
    pub data: Vec<i32>,
}

/// The height of a straight segment running from `a` (at step `0`) to
/// `b` (at step `den`), sampled at step `num` and rounded to the
/// nearest pixel.
pub open spec fn spec_interp(a: int, b: int, num: int, den: int) -> int {
    if b >= a {
        a + ((b - a) * num + den / 2) / den
    } else {
        a - ((a - b) * num + den / 2) / den
    }
}

/// The sampled segment height never leaves the band between its two
/// endpoints.
pub proof fn lemma_spec_interp_bounds(a: int, b: int, num: int, den: int)
    requires
        1 <= den,
        0 <= num <= den,
        0 <= a,
        0 <= b,
    ensures
        a <= b ==> a <= spec_interp(a, b, num, den) <= b,
        b < a ==> b <= spec_interp(a, b, num, den) <= a,
{
    let di = if b >= a {
        b - a
    } else {
        a - b
    };
    assert(0 <= di * num && di * num <= di * den) by (nonlinear_arith)
        requires
            0 <= di,
            0 <= num <= den,
    ;
    vstd::arithmetic::div_mod::lemma_fundamental_div_mod(den, 2);
    assert(di * den + den == den * (di + 1)) by (nonlinear_arith);
    vstd::arithmetic::div_mod::lemma_multiply_divide_lt(di * num + den / 2, den, di + 1);
    vstd::arithmetic::div_mod::lemma_div_pos_is_pos(di * num + den / 2, den);
}

/// Compute one sampled segment height, exactly as [`spec_interp`]
/// states it.
fn interpolate_height(a: usize, b: usize, num: usize, den: usize) -> (y: usize)
    requires
        1 <= den <= 0xffff_ffff,
        num <= den,
        a <= MAX_CANVAS_AREA,
        b <= MAX_CANVAS_AREA,
    ensures
        y == spec_interp(a as int, b as int, num as int, den as int),
        a <= b ==> a <= y <= b,
        b < a ==> b <= y <= a,
{
    proof {
        lemma_spec_interp_bounds(a as int, b as int, num as int, den as int);
    }
    let rise = if b >= a {
        b - a
    } else {
        a - b
    };
    proof {
        let di = rise as int;
        let ni = num as int;
        let de = den as int;
        assert(0 <= di * ni && di * ni <= di * de && di * ni <= 0x400_0000 * 0xffff_ffff)
            by (nonlinear_arith)
            requires
                0 <= di <= 0x400_0000,
                0 <= ni <= de <= 0xffff_ffff,
        ;
        vstd::arithmetic::div_mod::lemma_fundamental_div_mod(de, 2);
        assert(di * de + de == de * (di + 1)) by (nonlinear_arith);
        vstd::arithmetic::div_mod::lemma_multiply_divide_lt(di * ni + de / 2, de, di + 1);
    }
    let q = ((rise as u64) * (num as u64) + (den as u64) / 2) / (den as u64);
    if b >= a {
        a + (q as usize)
    } else {
        a - (q as usize)
    }
}

/// Grid lines at the configured intervals plus their numeric labels:
/// an axis value in the left margin at every labelled horizontal grid
/// line, and a tick label (an hour or a day) under every labelled data
/// point, centred on the point or left-aligned at its grid line.
pub struct AxisGridLabels {
    pub vertical_intervals: MarkIntervals,
    pub horizontal_intervals: MarkIntervals,
    pub vertical_label_range: Range,
    pub horizontal_labels: Vec<u8>,
    pub horizontal_labels_centered: bool,
}

/// The pixels the grid-and-labels draw may change (top-down
/// coordinates): its grid rows and columns, the band of each vertical
/// axis label, and the tick-label band under the axis.
pub open spec fn axis_marks_region(
    width: int,
    height: int,
    rl: int,
    pc: int,
    spacing: Spacing,
    padding: Padding,
    vline: int,
    hline: int,
    vlabel: int,
    lh: int,
    x: int,
    y: int,
) -> bool {
    let hs = spacing.horizontal as int;
    let vs = spacing.vertical as int;
    let left = padding.left as int;
    let right = padding.right as int;
    let below = padding.below as int;
    ||| exists|u: int|
        0 <= u < rl && u % vline == 0 && left <= x < width - right && y == height - 1 - (below
            + #[trigger] (u * vs))
    ||| exists|k: int|
        0 <= k < pc && k % hline == 0 && x == left + #[trigger] (k * hs) && height - 1 - (below + (
        rl - 1) * vs) <= y <= height - 1 - below
    ||| exists|u: int|
        0 <= u < rl && u % vlabel == 0 && 1 <= x && height - 1 - (below + #[trigger] (u * vs)) - lh
            / 2 <= y < height - 1 - (below + u * vs) - lh / 2 + lh
    ||| height - below + 2 <= y < height - below + 2 + lh
}

/// The same region, read off a chart and its mark settings.
pub open spec fn axis_marks_touched(
    chart: Chart,
    marks: AxisGridLabels,
    lh: int,
    x: int,
    y: int,
) -> bool {
    axis_marks_region(
        chart.spec_canvas().spec_width() as int,
        chart.spec_canvas().spec_height() as int,
        chart.spec_range_len() as int,
        chart.spec_point_count() as int,
        chart.spec_spacing(),
        chart.spec_padding(),
        marks.vertical_intervals.spec_line() as int,
        marks.horizontal_intervals.spec_line() as int,
        marks.vertical_intervals.spec_label() as int,
        lh,
        x,
        y,
    )
}

/// The height (from the bottom) of the grid row for axis unit `u`.
pub open spec fn grid_row_yb(chart: Chart, u: int) -> int {
    chart.spec_padding().below + u * chart.spec_spacing().vertical
}

/// The column of the vertical grid line at data point `k`.
pub open spec fn grid_col_x(chart: Chart, k: int) -> int {
    chart.spec_padding().left + k * chart.spec_spacing().horizontal
}

/// Two distinct multiples of `m` lie at least `m` apart.
proof fn lemma_multiple_gap(a: int, b: int, m: int)
    requires
        0 < m,
        a % m == 0,
        b % m == 0,
        a < b,
    ensures
        a + m <= b,
{
    vstd::arithmetic::div_mod::lemma_fundamental_div_mod(a, m);
    vstd::arithmetic::div_mod::lemma_fundamental_div_mod(b, m);
    let qa = a / m;
    let qb = b / m;
    assert(qa < qb) by (nonlinear_arith)
        requires
            m * qa < m * qb,
            0 < m,
    ;
    assert(m * qa + m <= m * qb) by (nonlinear_arith)
        requires
            qa + 1 <= qb,
            0 < m,
    ;
}

/// A value clamped to `[0, max]`.
pub open spec fn clamped(v: int, max: int) -> int {
    if v < 0 {
        0
    } else if v > max {
        max
    } else {
        v
    }
}

/// The drawn height of data point `k` of a line series: the baseline
/// plus the clamped value.
pub open spec fn line_point_height(
    data: Seq<i32>,
    max: int,
    spacing: Spacing,
    padding: Padding,
    k: int,
) -> int {
    padding.below + clamped(data[k] as int, max) * spacing.vertical
}

/// Pixel `(x, yb)` lies in the span that column `x` of line segment `k`
/// fills: between the segment's sampled heights one step apart, the
/// columns running from just right of point `k` to point `k + 1`.
pub open spec fn seg_covers(
    data: Seq<i32>,
    max: int,
    spacing: Spacing,
    padding: Padding,
    k: int,
    x: int,
    yb: int,
) -> bool {
    segment_column_covers(
        padding.left + k * spacing.horizontal,
        line_point_height(data, max, spacing, padding, k),
        line_point_height(data, max, spacing, padding, k + 1),
        spacing.horizontal as int,
        x,
        yb,
    )
}

/// Pixel `(x, yb)` lies in one of the first `upto` segments' spans.
pub open spec fn segments_cover(
    data: Seq<i32>,
    max: int,
    spacing: Spacing,
    padding: Padding,
    upto: int,
    x: int,
    yb: int,
) -> bool {
    exists|k: int| 0 <= k < upto && #[trigger] seg_covers(data, max, spacing, padding, k, x, yb)
}

/// Pixel `(x, yb)` is one of the first `upto` data points' marks.
pub open spec fn marks_cover(
    data: Seq<i32>,
    max: int,
    spacing: Spacing,
    padding: Padding,
    upto: int,
    x: int,
    yb: int,
) -> bool {
    exists|k: int|
        0 <= k < upto && x == padding.left + k * spacing.horizontal && yb
            == #[trigger] line_point_height(data, max, spacing, padding, k)
}

/// Pixel `(x, yb)` lies on the drawn line: on a data-point mark or in a
/// segment span.
pub open spec fn line_covers(
    data: Seq<i32>,
    max: int,
    spacing: Spacing,
    padding: Padding,
    x: int,
    yb: int,
) -> bool {
    ||| marks_cover(data, max, spacing, padding, data.len() as int, x, yb)
    ||| segments_cover(data, max, spacing, padding, data.len() as int - 1, x, yb)
}

/// Pixel `(x, yb)` lies in the span one segment's columns fill, the
/// segment running from height `yb0` at column `x0` to height `yb1` a
/// slot of `hs` columns later.
pub open spec fn segment_column_covers(
    x0: int,
    yb0: int,
    yb1: int,
    hs: int,
    x: int,
    yb: int,
) -> bool {
    let lo = spec_interp(yb0, yb1, x - x0 - 1, hs);
    let hi = spec_interp(yb0, yb1, x - x0, hs);
    &&& x0 < x <= x0 + hs
    &&& if lo <= hi {
        lo <= yb <= hi
    } else {
        hi <= yb <= lo
    }
}

/// The colour of pixel `(x, y)` (top-down) after one glyph bitmap is
/// blended at `(gx, gy)`: where the bitmap has ink, its coverage blends
/// the text colour over what lies under; everywhere else the old pixel
/// stays.
pub open spec fn glyph_blend_at(
    glyph: Glyph,
    gx: int,
    gy: int,
    colour: Rgb,
    under: Rgb,
    x: int,
    y: int,
) -> Rgb {
    if gx <= x < gx + glyph.cols && gy <= y < gy + glyph.rows && glyph.alpha@[(y - gy) * glyph.cols
        + (x - gx)] > 0 {
        blend_colour(colour, under, glyph.alpha@[(y - gy) * glyph.cols + (x - gx)] as int)
    } else {
        under
    }
}

/// The colour of pixel `(x, y)` after a laid-out text box's placements
/// are blended in order onto `under`: the box sits with its left edge
/// at `left` and its first line's top at `top0`, lines `lh` pixels
/// apart, and each placement blends its glyph's bitmap in its colour.
pub open spec fn placed_text_pixel(
    font: &RasterFont,
    placed: Seq<PlacedGlyph>,
    left: int,
    top0: int,
    lh: int,
    under: Rgb,
    x: int,
    y: int,
) -> Rgb
    decreases placed.len(),
{
    if placed.len() == 0 {
        under
    } else {
        let prev = placed_text_pixel(font, placed.drop_last(), left, top0, lh, under, x, y);
        let p = placed.last();
        match glyph_index_in(font.spec_glyphs(), p.ch) {
            None => prev,
            Some(gi) => {
                let g = font.spec_glyphs()[gi];
                glyph_blend_at(
                    g,
                    left + p.x + g.left,
                    top0 + p.line * lh + g.top,
                    p.colour,
                    prev,
                    x,
                    y,
                )
            },
        }
    }
}

/// Counting one more segment covers exactly the old spans plus segment
/// `k`'s own span.
proof fn lemma_segments_cover_step(
    data: Seq<i32>,
    max: int,
    spacing: Spacing,
    padding: Padding,
    k: int,
    x: int,
    yb: int,
)
    requires
        0 <= k,
    ensures
        segments_cover(data, max, spacing, padding, k + 1, x, yb) <==> (segments_cover(
            data,
            max,
            spacing,
            padding,
            k,
            x,
            yb,
        ) || seg_covers(data, max, spacing, padding, k, x, yb)),
{
    if segments_cover(data, max, spacing, padding, k + 1, x, yb) {
        let kk = choose|kk: int|
            0 <= kk < k + 1 && #[trigger] seg_covers(data, max, spacing, padding, kk, x, yb);
        if kk < k {
            assert(segments_cover(data, max, spacing, padding, k, x, yb));
        }
    }
}

/// Counting one more mark covers exactly the old marks plus mark `k`.
proof fn lemma_marks_cover_step(
    data: Seq<i32>,
    max: int,
    spacing: Spacing,
    padding: Padding,
    k: int,
    x: int,
    yb: int,
)
    requires
        0 <= k,
    ensures
        marks_cover(data, max, spacing, padding, k + 1, x, yb) <==> (marks_cover(
            data,
            max,
            spacing,
            padding,
            k,
            x,
            yb,
        ) || (x == padding.left + k * spacing.horizontal && yb == line_point_height(
            data,
            max,
            spacing,
            padding,
            k,
        ))),
{
    if marks_cover(data, max, spacing, padding, k + 1, x, yb) {
        let kk = choose|kk: int|
            0 <= kk < k + 1 && x == padding.left + kk * spacing.horizontal && yb
                == #[trigger] line_point_height(data, max, spacing, padding, kk);
        if kk < k {
            assert(marks_cover(data, max, spacing, padding, k, x, yb));
        }
    }
}

/// A panel canvas plus the layout that sized it.
#[derive(Debug)]
pub struct Chart {
    canvas: Canvas,
    point_count: usize,
    range_len: u32,
    spacing: Spacing,
    padding: Padding,
}

impl Chart {
    pub closed spec fn spec_canvas(&self) -> Canvas {
        self.canvas
    }

    pub closed spec fn spec_point_count(&self) -> usize {
        self.point_count
    }

    pub closed spec fn spec_range_len(&self) -> u32 {
        self.range_len
    }

    pub closed spec fn spec_spacing(&self) -> Spacing {
        self.spacing
    }

    pub closed spec fn spec_padding(&self) -> Padding {
        self.padding
    }

    /// The canvas has exactly the dimensions the layout dictates.
    pub open spec fn wf(&self) -> bool {
        &&& self.spec_canvas().wf()
        &&& 1 <= self.spec_point_count()
        &&& 1 <= self.spec_range_len()
        &&& 1 <= self.spec_spacing().horizontal
        &&& 1 <= self.spec_spacing().vertical
        &&& self.spec_canvas().spec_width() == chart_width(
            self.spec_point_count() as int,
            self.spec_spacing(),
            self.spec_padding(),
        )
        &&& self.spec_canvas().spec_height() == chart_height(
            self.spec_range_len() as int,
            self.spec_spacing(),
            self.spec_padding(),
        )
    }

    /// Both charts share one layout, so a draw changed only pixels.
    pub open spec fn same_frame(&self, other: &Chart) -> bool {
        &&& self.spec_point_count() == other.spec_point_count()
        &&& self.spec_range_len() == other.spec_range_len()
        &&& self.spec_spacing() == other.spec_spacing()
        &&& self.spec_padding() == other.spec_padding()
    }

    /// Pixel colour at `x` across and `yb` up from the bottom-left
    /// corner of the canvas.
    pub open spec fn spec_pixel_up(&self, x: int, yb: int) -> Rgb {
        self.spec_canvas().spec_pixel(x, self.spec_canvas().spec_height() - 1 - yb)
    }

    pub fn width(&self) -> (r: usize)
        ensures
            r == self.spec_canvas().spec_width(),
    {
        self.canvas.width()
    }

    pub fn height(&self) -> (r: usize)
        ensures
            r == self.spec_canvas().spec_height(),
    {
        self.canvas.height()
    }

    /// Allocate an all-black panel canvas. Succeeds exactly when the
    /// layout is positive and the resulting dimensions stay under the
    /// canvas area cap.
    pub fn new(point_count: usize, range_len: u32, spacing: Spacing, padding: Padding) -> (r:
        Result<Chart, Error>)
        ensures
            r is Ok <==> 1 <= point_count && 1 <= range_len && 1 <= spacing.horizontal && 1
                <= spacing.vertical && 1 <= chart_width(point_count as int, spacing, padding)
                && chart_width(point_count as int, spacing, padding) * chart_height(
                range_len as int,
                spacing,
                padding,
            ) <= MAX_CANVAS_AREA,
            r matches Ok(c) ==> c.wf() && c.spec_point_count() == point_count && c.spec_range_len()
                == range_len && c.spec_spacing() == spacing && c.spec_padding() == padding,
            r matches Ok(c) ==> forall|x: int, yb: int|
                0 <= x < c.spec_canvas().spec_width() && 0 <= yb < c.spec_canvas().spec_height()
                    ==> c.spec_pixel_up(x, yb) == (Rgb { red: 0u8, green: 0u8, blue: 0u8 }),
            r matches Err(e) ==> e is Unfriendly,
    {
        let ghost cw = chart_width(point_count as int, spacing, padding);
        let ghost ch = chart_height(range_len as int, spacing, padding);
        if point_count < 1 || range_len < 1 || spacing.horizontal < 1 || spacing.vertical < 1 {
            return Err(Error::custom_unfriendly("degenerate chart layout".to_owned()));
        }
        proof {
            assert(ch >= 1 && cw >= point_count - 1 && ch >= range_len) by (nonlinear_arith)
                requires
                    cw == (point_count as int - 1) * spacing.horizontal + padding.left
                        + padding.right,
                    ch == range_len as int * spacing.vertical + padding.above + padding.below,
                    1 <= point_count,
                    1 <= range_len,
                    1 <= spacing.horizontal,
                    1 <= spacing.vertical,
            ;
        }
        if point_count - 1 > MAX_CANVAS_AREA {
            proof {
                assert(cw * ch > MAX_CANVAS_AREA) by (nonlinear_arith)
                    requires
                        cw > MAX_CANVAS_AREA,
                        ch >= 1,
                ;
            }
            return Err(Error::custom_unfriendly("chart too wide".to_owned()));
        }
        proof {
            assert((point_count as int - 1) * (spacing.horizontal as int) <= 0x400_0000
                * 0xffff_ffff) by (nonlinear_arith)
                requires
                    0 <= point_count as int - 1 <= 0x400_0000,
                    0 <= spacing.horizontal as int <= 0xffff_ffff,
            ;
        }
        let w64: u64 = (point_count as u64 - 1) * (spacing.horizontal as u64)
            + (padding.left as u64) + (padding.right as u64);
        if w64 < 1 || w64 > MAX_CANVAS_AREA as u64 {
            proof {
                if cw > MAX_CANVAS_AREA {
                    assert(cw * ch > MAX_CANVAS_AREA) by (nonlinear_arith)
                        requires
                            cw > MAX_CANVAS_AREA,
                            ch >= 1,
                    ;
                }
            }
            return Err(Error::custom_unfriendly("chart width out of bounds".to_owned()));
        }
        if range_len as u64 > MAX_CANVAS_AREA as u64 {
            proof {
                assert(cw * ch > MAX_CANVAS_AREA) by (nonlinear_arith)
                    requires
                        ch > MAX_CANVAS_AREA,
                        cw >= 1,
                ;
            }
            return Err(Error::custom_unfriendly("chart range too long".to_owned()));
        }
        proof {
            assert((range_len as int) * (spacing.vertical as int) <= 0x400_0000 * 0xffff_ffff)
                by (nonlinear_arith)
                requires
                    0 <= range_len as int <= 0x400_0000,
                    0 <= spacing.vertical as int <= 0xffff_ffff,
            ;
        }
        let h64: u64 = (range_len as u64) * (spacing.vertical as u64) + (padding.above as u64)
            + (padding.below as u64);
        if h64 > MAX_CANVAS_AREA as u64 {
            proof {
                assert(cw * ch > MAX_CANVAS_AREA) by (nonlinear_arith)
                    requires
                        ch > MAX_CANVAS_AREA,
                        cw >= 1,
                ;
            }
            return Err(Error::custom_unfriendly("chart too tall".to_owned()));
        }
        proof {
            assert(w64 * h64 <= 0x400_0000 * 0x400_0000) by (nonlinear_arith)
                requires
                    0 <= w64 <= 0x400_0000,
                    0 <= h64 <= 0x400_0000,
            ;
        }
        if w64 * h64 > MAX_CANVAS_AREA as u64 {
            return Err(Error::custom_unfriendly("chart area too large".to_owned()));
        }
        let canvas = Canvas::new(w64 as usize, h64 as usize);
        let chart = Chart { canvas, point_count, range_len, spacing, padding };
        proof {
            assert forall|x: int, yb: int|
                0 <= x < chart.spec_canvas().spec_width() && 0 <= yb
                    < chart.spec_canvas().spec_height() implies chart.spec_pixel_up(x, yb) == (Rgb {
                red: 0u8,
                green: 0u8,
                blue: 0u8,
            }) by {
                let h = chart.spec_canvas().spec_height() as int;
                assert(chart.spec_canvas().spec_pixel(x, h - 1 - yb) == (Rgb {
                    red: 0u8,
                    green: 0u8,
                    blue: 0u8,
                }));
            }
        }
        Ok(chart)
    }

    /// Yield the finished raster, consuming the chart.
    pub fn into_canvas(self) -> (r: Canvas)
        ensures
            r == self.spec_canvas(),
    {
        self.canvas
    }

    /// Fill a rectangle given in bottom-up panel coordinates.
    fn fill_rect_up(&mut self, x0: usize, yb0: usize, rect_w: usize, rect_h: usize, colour: Rgb)
        requires
            old(self).wf(),
            x0 + rect_w <= old(self).spec_canvas().spec_width(),
            yb0 + rect_h <= old(self).spec_canvas().spec_height(),
        ensures
            final(self).wf(),
            final(self).same_frame(old(self)),
            final(self).spec_canvas().spec_width() == old(self).spec_canvas().spec_width(),
            final(self).spec_canvas().spec_height() == old(self).spec_canvas().spec_height(),
            forall|x: int, yb: int|
                0 <= x < old(self).spec_canvas().spec_width() && 0 <= yb < old(
                    self,
                ).spec_canvas().spec_height() ==> final(self).spec_pixel_up(x, yb) == (if x0 <= x
                    < x0 + rect_w && yb0 <= yb < yb0 + rect_h {
                    colour
                } else {
                    old(self).spec_pixel_up(x, yb)
                }),
    {
        let h = self.canvas.height();
        self.canvas.fill_rect(x0, h - yb0 - rect_h, rect_w, rect_h, colour);
        proof {
            let hh = h as int;
            assert forall|x: int, yb: int|
                0 <= x < old(self).spec_canvas().spec_width() && 0 <= yb < hh implies self
                .spec_pixel_up(x, yb) == (if x0 <= x < x0 + rect_w && yb0 <= yb < yb0 + rect_h {
                colour
            } else {
                old(self).spec_pixel_up(x, yb)
            }) by {
                let j = hh - 1 - yb;
                assert(0 <= j < hh);
                assert(self.spec_canvas().spec_pixel(x, j) == (if x0 <= x < x0 + rect_w && hh - yb0
                    - rect_h <= j < hh - yb0 - rect_h + rect_h {
                    colour
                } else {
                    old(self).spec_canvas().spec_pixel(x, j)
                }));
            }
        }
    }

    /// Draw one filled bar per data point, in a single colour, from the
    /// baseline up to the value. Succeeds exactly when the series has
    /// one value per slot (keeping the trailing margin) and every value
    /// fits the panel's range; on failure nothing is drawn.
    pub fn draw_solid_bars(&mut self, bars: SolidBars) -> (r: Result<(), Error>)
        requires
            old(self).wf(),
        ensures
            final(self).wf(),
            final(self).same_frame(old(self)),
            r is Ok <==> bars.data@.len() + 1 == old(self).spec_point_count() && in_vertical_range(
                bars.data@,
                old(self).spec_range_len() as int,
            ),
            r matches Err(e) ==> e is Unfriendly && *final(self) == *old(self),
            r is Ok ==> forall|x: int, yb: int|
                0 <= x < old(self).spec_canvas().spec_width() && 0 <= yb < old(
                    self,
                ).spec_canvas().spec_height() ==> final(self).spec_pixel_up(x, yb) == (
                if bars_cover(bars.data@, old(self).spec_spacing(), old(self).spec_padding(), x, yb) {
                    bars.colour
                } else {
                    old(self).spec_pixel_up(x, yb)
                }),
    {
        let n = match self.check_bar_series(&bars.data) {
            Ok(n) => n,
            Err(e) => {
                return Err(e);
            },
        };
        let ghost base = *self;
        let mut k: usize = 0;
        proof {
            assert(bars.data@.take(0) =~= Seq::<i32>::empty());
        }
        while k < n
            invariant
                self.wf(),
                self.same_frame(&base),
                base.wf(),
                self.spec_canvas().spec_width() == base.spec_canvas().spec_width(),
                self.spec_canvas().spec_height() == base.spec_canvas().spec_height(),
                n == bars.data@.len(),
                k <= n,
                n + 1 == base.spec_point_count(),
                in_vertical_range(bars.data@, base.spec_range_len() as int),
                forall|x: int, yb: int|
                    0 <= x < base.spec_canvas().spec_width() && 0 <= yb < base.spec_canvas(
                    ).spec_height() ==> self.spec_pixel_up(x, yb) == (if bars_cover(
                        bars.data@.take(k as int),
                        base.spec_spacing(),
                        base.spec_padding(),
                        x,
                        yb,
                    ) {
                        bars.colour
                    } else {
                        base.spec_pixel_up(x, yb)
                    }),
            decreases n - k,
        {
            let ghost before = *self;
            let (x0, v) = self.bar_slot(&bars.data, k);
            self.fill_rect_up(
                x0,
                self.padding.below as usize,
                self.spacing.horizontal as usize,
                v * self.spacing.vertical as usize,
                bars.colour,
            );
            proof {
                let sp = base.spec_spacing();
                let pd = base.spec_padding();
                assert forall|x: int, yb: int|
                    0 <= x < base.spec_canvas().spec_width() && 0 <= yb < base.spec_canvas(
                    ).spec_height() implies self.spec_pixel_up(x, yb) == (if bars_cover(
                    bars.data@.take(k as int + 1),
                    sp,
                    pd,
                    x,
                    yb,
                ) {
                    bars.colour
                } else {
                    base.spec_pixel_up(x, yb)
                }) by {
                    lemma_bars_cover_step(bars.data@, sp, pd, k as int, x, yb);
                    assert((k as int + 1) * sp.horizontal == k as int * sp.horizontal
                        + sp.horizontal) by (nonlinear_arith);
                }
            }
            k += 1;
        }
        proof {
            assert(bars.data@.take(n as int) =~= bars.data@);
        }
        Ok(())
    }

    /// Draw one gradient-filled bar per data point. The fill colour of
    /// each pixel row comes from the gradient, keyed on the row's
    /// absolute height above the canvas bottom, so colour bands align
    /// across bars of different heights. Succeeds exactly when the
    /// series has one value per slot and every value fits the range; on
    /// failure nothing is drawn.
    pub fn draw_gradient_bars(&mut self, bars: GradientBars) -> (r: Result<(), Error>)
        requires
            old(self).wf(),
            bars.gradient.wf(),
        ensures
            final(self).wf(),
            final(self).same_frame(old(self)),
            r is Ok <==> bars.data@.len() + 1 == old(self).spec_point_count() && in_vertical_range(
                bars.data@,
                old(self).spec_range_len() as int,
            ),
            r matches Err(e) ==> e is Unfriendly && *final(self) == *old(self),
            r is Ok ==> forall|x: int, yb: int|
                0 <= x < old(self).spec_canvas().spec_width() && 0 <= yb < old(
                    self,
                ).spec_canvas().spec_height() ==> final(self).spec_pixel_up(x, yb) == (
                if bars_cover(bars.data@, old(self).spec_spacing(), old(self).spec_padding(), x, yb) {
                    colour_in_gradient(bars.gradient@, yb)
                } else {
                    old(self).spec_pixel_up(x, yb)
                }),
    {
        let n = match self.check_bar_series(&bars.data) {
            Ok(n) => n,
            Err(e) => {
                return Err(e);
            },
        };
        let ghost base = *self;
        let mut k: usize = 0;
        proof {
            assert(bars.data@.take(0) =~= Seq::<i32>::empty());
        }
        while k < n
            invariant
                self.wf(),
                self.same_frame(&base),
                base.wf(),
                bars.gradient.wf(),
                self.spec_canvas().spec_width() == base.spec_canvas().spec_width(),
                self.spec_canvas().spec_height() == base.spec_canvas().spec_height(),
                n == bars.data@.len(),
                k <= n,
                n + 1 == base.spec_point_count(),
                in_vertical_range(bars.data@, base.spec_range_len() as int),
                forall|x: int, yb: int|
                    0 <= x < base.spec_canvas().spec_width() && 0 <= yb < base.spec_canvas(
                    ).spec_height() ==> self.spec_pixel_up(x, yb) == (if bars_cover(
                        bars.data@.take(k as int),
                        base.spec_spacing(),
                        base.spec_padding(),
                        x,
                        yb,
                    ) {
                        colour_in_gradient(bars.gradient@, yb)
                    } else {
                        base.spec_pixel_up(x, yb)
                    }),
            decreases n - k,
        {
            let (x0, v) = self.bar_slot(&bars.data, k);
            let below = self.padding.below as usize;
            let vs = self.spacing.vertical as usize;
            let hs = self.spacing.horizontal as usize;
            let top = v * vs;
            let mut row: usize = 0;
            while row < top
                invariant
                    self.wf(),
                    self.same_frame(&base),
                    base.wf(),
                    bars.gradient.wf(),
                    self.spec_canvas().spec_width() == base.spec_canvas().spec_width(),
                    self.spec_canvas().spec_height() == base.spec_canvas().spec_height(),
                    n == bars.data@.len(),
                    k < n,
                    n + 1 == base.spec_point_count(),
                    in_vertical_range(bars.data@, base.spec_range_len() as int),
                    row <= top,
                    below == base.spec_padding().below,
                    vs == base.spec_spacing().vertical,
                    hs == base.spec_spacing().horizontal,
                    top == bars.data@[k as int] * vs,
                    x0 == base.spec_padding().left + k * hs,
                    x0 + hs <= base.spec_canvas().spec_width(),
                    below + top <= base.spec_canvas().spec_height(),
                    forall|x: int, yb: int|
                        0 <= x < base.spec_canvas().spec_width() && 0 <= yb < base.spec_canvas(
                        ).spec_height() ==> self.spec_pixel_up(x, yb) == (if bars_cover(
                            bars.data@.take(k as int),
                            base.spec_spacing(),
                            base.spec_padding(),
                            x,
                            yb,
                        ) || (x0 <= x < x0 + hs && below <= yb < below + row) {
                            colour_in_gradient(bars.gradient@, yb)
                        } else {
                            base.spec_pixel_up(x, yb)
                        }),
                decreases top - row,
            {
                proof {
                    assert(base.spec_canvas().spec_height() <= MAX_CANVAS_AREA)
                        by (nonlinear_arith)
                        requires
                            base.spec_canvas().spec_width() as int * base.spec_canvas(
                            ).spec_height() as int <= MAX_CANVAS_AREA,
                            base.spec_canvas().spec_width() >= 1,
                    ;
                }
                let colour = bars.gradient.color_at((below + row) as u32);
                self.fill_rect_up(x0, below + row, hs, 1, colour);
                row += 1;
            }
            proof {
                let sp = base.spec_spacing();
                let pd = base.spec_padding();
                assert forall|x: int, yb: int|
                    0 <= x < base.spec_canvas().spec_width() && 0 <= yb < base.spec_canvas(
                    ).spec_height() implies self.spec_pixel_up(x, yb) == (if bars_cover(
                    bars.data@.take(k as int + 1),
                    sp,
                    pd,
                    x,
                    yb,
                ) {
                    colour_in_gradient(bars.gradient@, yb)
                } else {
                    base.spec_pixel_up(x, yb)
                }) by {
                    lemma_bars_cover_step(bars.data@, sp, pd, k as int, x, yb);
                    assert((k as int + 1) * sp.horizontal == k as int * sp.horizontal
                        + sp.horizontal) by (nonlinear_arith);
                }
            }
            k += 1;
        }
        proof {
            assert(bars.data@.take(n as int) =~= bars.data@);
        }
        Ok(())
    }

    /// Draw a one-pixel-high reference mark across each data point's
    /// slot at the height of its value. Succeeds exactly when the series
    /// has one value per slot and every value fits the range; on failure
    /// nothing is drawn.
    pub fn draw_horizontal_lines(&mut self, lines: HorizontalLines) -> (r: Result<(), Error>)
        requires
            old(self).wf(),
        ensures
            final(self).wf(),
            final(self).same_frame(old(self)),
            r is Ok <==> lines.data@.len() + 1 == old(self).spec_point_count()
                && in_vertical_range(lines.data@, old(self).spec_range_len() as int),
            r matches Err(e) ==> e is Unfriendly && *final(self) == *old(self),
            r is Ok ==> forall|x: int, yb: int|
                0 <= x < old(self).spec_canvas().spec_width() && 0 <= yb < old(
                    self,
                ).spec_canvas().spec_height() ==> final(self).spec_pixel_up(x, yb) == (
                if hlines_cover(
                    lines.data@,
                    old(self).spec_spacing(),
                    old(self).spec_padding(),
                    x,
                    yb,
                ) {
                    lines.colour
                } else {
                    old(self).spec_pixel_up(x, yb)
                }),
    {
        let n = match self.check_bar_series(&lines.data) {
            Ok(n) => n,
            Err(e) => {
                return Err(e);
            },
        };
        let ghost base = *self;
        let mut k: usize = 0;
        proof {
            assert(lines.data@.take(0) =~= Seq::<i32>::empty());
        }
        while k < n
            invariant
                self.wf(),
                self.same_frame(&base),
                base.wf(),
                self.spec_canvas().spec_width() == base.spec_canvas().spec_width(),
                self.spec_canvas().spec_height() == base.spec_canvas().spec_height(),
                n == lines.data@.len(),
                k <= n,
                n + 1 == base.spec_point_count(),
                in_vertical_range(lines.data@, base.spec_range_len() as int),
                forall|x: int, yb: int|
                    0 <= x < base.spec_canvas().spec_width() && 0 <= yb < base.spec_canvas(
                    ).spec_height() ==> self.spec_pixel_up(x, yb) == (if hlines_cover(
                        lines.data@.take(k as int),
                        base.spec_spacing(),
                        base.spec_padding(),
                        x,
                        yb,
                    ) {
                        lines.colour
                    } else {
                        base.spec_pixel_up(x, yb)
                    }),
            decreases n - k,
        {
            let (x0, v) = self.bar_slot(&lines.data, k);
            let vs = self.spacing.vertical as usize;
            let hs = self.spacing.horizontal as usize;
            let yb0 = self.padding.below as usize + v * vs;
            self.fill_rect_up(x0, yb0, hs, 1, lines.colour);
            proof {
                let sp = base.spec_spacing();
                let pd = base.spec_padding();
                assert forall|x: int, yb: int|
                    0 <= x < base.spec_canvas().spec_width() && 0 <= yb < base.spec_canvas(
                    ).spec_height() implies self.spec_pixel_up(x, yb) == (if hlines_cover(
                    lines.data@.take(k as int + 1),
                    sp,
                    pd,
                    x,
                    yb,
                ) {
                    lines.colour
                } else {
                    base.spec_pixel_up(x, yb)
                }) by {
                    lemma_hlines_cover_step(lines.data@, sp, pd, k as int, x, yb);
                    assert((k as int + 1) * sp.horizontal == k as int * sp.horizontal
                        + sp.horizontal) by (nonlinear_arith);
                }
            }
            k += 1;
        }
        proof {
            assert(lines.data@.take(n as int) =~= lines.data@);
        }
        Ok(())
    }

    /// Draw a series as straight segments between consecutive points,
    /// each value clamped to `[0, max]` before pixel mapping, and mark
    /// every data point in the series colour. Succeeds exactly when the
    /// series has one value per slot boundary, `max` fits the panel's
    /// range, and the right padding leaves room for the last point; on
    /// failure nothing is drawn.
    pub fn draw_line(&mut self, line: Line) -> (r: Result<(), Error>)
        requires
            old(self).wf(),
        ensures
            final(self).wf(),
            final(self).same_frame(old(self)),
            r is Ok <==> line.data@.len() == old(self).spec_point_count() && 0 <= line.max < old(
                self,
            ).spec_range_len() && 1 <= old(self).spec_padding().right,
            r matches Err(e) ==> e is Unfriendly && *final(self) == *old(self),
            r is Ok ==> forall|x: int, yb: int|
                0 <= x < old(self).spec_canvas().spec_width() && 0 <= yb < old(
                    self,
                ).spec_canvas().spec_height() ==> final(self).spec_pixel_up(x, yb) == (
                if line_covers(
                    line.data@,
                    line.max as int,
                    old(self).spec_spacing(),
                    old(self).spec_padding(),
                    x,
                    yb,
                ) {
                    line.colour
                } else {
                    old(self).spec_pixel_up(x, yb)
                }),
    {
        let n = line.data.len();
        if n != self.point_count {
            return Err(Error::custom_unfriendly("series length does not match".to_owned()));
        }
        if line.max < 0 || line.max as u32 >= self.range_len {
            return Err(Error::custom_unfriendly("line maximum outside the range".to_owned()));
        }
        if self.padding.right < 1 {
            return Err(Error::custom_unfriendly("no room for the last point".to_owned()));
        }
        let ghost base = *self;
        let hs = self.spacing.horizontal as usize;
        let vs = self.spacing.vertical as usize;
        let below = self.padding.below as usize;
        let left = self.padding.left as usize;
        // Clamp every value and map it to its height above the bottom.
        let mut ybs: Vec<usize> = Vec::new();
        let mut k: usize = 0;
        while k < n
            invariant
                self.wf(),
                *self == base,
                n == line.data@.len(),
                n == self.spec_point_count(),
                k <= n,
                ybs@.len() == k,
                0 <= line.max < self.spec_range_len(),
                vs == self.spec_spacing().vertical,
                below == self.spec_padding().below,
                forall|j: int|
                    0 <= j < k ==> ybs@[j] == below + clamped(
                        #[trigger] line.data@[j] as int,
                        line.max as int,
                    ) * vs,
                forall|j: int| 0 <= j < k ==> #[trigger] ybs@[j] < self.spec_canvas().spec_height(),
            decreases n - k,
        {
            let raw = line.data[k];
            let v: usize = if raw < 0 {
                0
            } else if raw > line.max {
                line.max as usize
            } else {
                raw as usize
            };
            proof {
                assert(v * vs + vs <= self.spec_range_len() * vs && 0 <= v * vs)
                    by (nonlinear_arith)
                    requires
                        0 <= v < self.spec_range_len(),
                        vs >= 1,
                ;
            }
            ybs.push(below + v * vs);
            k += 1;
        }
        let ghost sp = base.spec_spacing();
        let ghost pd = base.spec_padding();
        let ghost data = line.data@;
        let ghost vmax = line.max as int;
        // Connect consecutive points with straight segments.
        let mut k: usize = 0;
        proof {
            assert forall|x: int, yb: int|
                0 <= x < base.spec_canvas().spec_width() && 0 <= yb < base.spec_canvas(
                ).spec_height() implies self.spec_pixel_up(x, yb) == (if segments_cover(
                data,
                vmax,
                sp,
                pd,
                0,
                x,
                yb,
            ) {
                line.colour
            } else {
                base.spec_pixel_up(x, yb)
            }) by {
                if segments_cover(data, vmax, sp, pd, 0, x, yb) {
                    let kk = choose|kk: int|
                        0 <= kk < 0 && #[trigger] seg_covers(data, vmax, sp, pd, kk, x, yb);
                }
            }
        }
        while k < n - 1
            invariant
                1 <= n,
                k <= n - 1,
                self.wf(),
                self.same_frame(&base),
                base.wf(),
                self.spec_canvas().spec_width() == base.spec_canvas().spec_width(),
                self.spec_canvas().spec_height() == base.spec_canvas().spec_height(),
                n == self.spec_point_count(),
                n == data.len(),
                ybs@.len() == n,
                1 <= self.spec_padding().right,
                hs == self.spec_spacing().horizontal,
                left == self.spec_padding().left,
                below == self.spec_padding().below,
                vs == self.spec_spacing().vertical,
                sp == self.spec_spacing(),
                pd == self.spec_padding(),
                data == line.data@,
                vmax == line.max as int,
                forall|j: int| 0 <= j < n ==> #[trigger] ybs@[j] < self.spec_canvas().spec_height(),
                forall|j: int|
                    0 <= j < n ==> ybs@[j] == below + clamped(
                        #[trigger] line.data@[j] as int,
                        line.max as int,
                    ) * vs,
                forall|x: int, yb: int|
                    0 <= x < base.spec_canvas().spec_width() && 0 <= yb < base.spec_canvas(
                    ).spec_height() ==> self.spec_pixel_up(x, yb) == (if segments_cover(
                        data,
                        vmax,
                        sp,
                        pd,
                        k as int,
                        x,
                        yb,
                    ) {
                        line.colour
                    } else {
                        base.spec_pixel_up(x, yb)
                    }),
            decreases n - k,
        {
            let ghost before = *self;
            let x0 = self.point_x(k);
            self.draw_segment(x0, ybs[k], ybs[k + 1], line.colour);
            proof {
                assert(x0 as int == pd.left + k as int * sp.horizontal);
                assert(ybs@[k as int] == line_point_height(data, vmax, sp, pd, k as int));
                assert(ybs@[k as int + 1] == line_point_height(data, vmax, sp, pd, k as int + 1));
                assert forall|x: int, yb: int|
                    0 <= x < base.spec_canvas().spec_width() && 0 <= yb < base.spec_canvas(
                    ).spec_height() implies self.spec_pixel_up(x, yb) == (if segments_cover(
                    data,
                    vmax,
                    sp,
                    pd,
                    k as int + 1,
                    x,
                    yb,
                ) {
                    line.colour
                } else {
                    base.spec_pixel_up(x, yb)
                }) by {
                    lemma_segments_cover_step(data, vmax, sp, pd, k as int, x, yb);
                    assert(seg_covers(data, vmax, sp, pd, k as int, x, yb)
                        == segment_column_covers(
                        x0 as int,
                        ybs@[k as int] as int,
                        ybs@[k as int + 1] as int,
                        hs as int,
                        x,
                        yb,
                    ));
                }
            }
            k += 1;
        }
        // Mark every data point.
        proof {
            assert forall|x: int, yb: int|
                0 <= x < base.spec_canvas().spec_width() && 0 <= yb < base.spec_canvas(
                ).spec_height() implies !marks_cover(data, vmax, sp, pd, 0, x, yb) by {
                if marks_cover(data, vmax, sp, pd, 0, x, yb) {
                    let kk = choose|kk: int|
                        0 <= kk < 0 && x == pd.left + kk * sp.horizontal && yb
                            == #[trigger] line_point_height(data, vmax, sp, pd, kk);
                }
            }
        }
        let mut k: usize = 0;
        while k < n
            invariant
                self.wf(),
                self.same_frame(&base),
                base.wf(),
                self.spec_canvas().spec_width() == base.spec_canvas().spec_width(),
                self.spec_canvas().spec_height() == base.spec_canvas().spec_height(),
                n == self.spec_point_count(),
                n == line.data@.len(),
                n == data.len(),
                k <= n,
                ybs@.len() == n,
                1 <= self.spec_padding().right,
                hs == self.spec_spacing().horizontal,
                left == self.spec_padding().left,
                below == self.spec_padding().below,
                vs == self.spec_spacing().vertical,
                sp == self.spec_spacing(),
                pd == self.spec_padding(),
                data == line.data@,
                vmax == line.max as int,
                0 <= line.max < self.spec_range_len(),
                forall|j: int| 0 <= j < n ==> #[trigger] ybs@[j] < self.spec_canvas().spec_height(),
                forall|j: int|
                    0 <= j < n ==> ybs@[j] == below + clamped(
                        #[trigger] line.data@[j] as int,
                        line.max as int,
                    ) * vs,
                forall|x: int, yb: int|
                    0 <= x < base.spec_canvas().spec_width() && 0 <= yb < base.spec_canvas(
                    ).spec_height() ==> self.spec_pixel_up(x, yb) == (if segments_cover(
                        data,
                        vmax,
                        sp,
                        pd,
                        n as int - 1,
                        x,
                        yb,
                    ) || marks_cover(data, vmax, sp, pd, k as int, x, yb) {
                        line.colour
                    } else {
                        base.spec_pixel_up(x, yb)
                    }),
            decreases n - k,
        {
            let x0 = self.point_x(k);
            let yb = ybs[k];
            self.fill_rect_up(x0, yb, 1, 1, line.colour);
            proof {
                assert forall|x: int, yy: int|
                    0 <= x < base.spec_canvas().spec_width() && 0 <= yy < base.spec_canvas(
                    ).spec_height() implies self.spec_pixel_up(x, yy) == (if segments_cover(
                    data,
                    vmax,
                    sp,
                    pd,
                    n as int - 1,
                    x,
                    yy,
                ) || marks_cover(data, vmax, sp, pd, k as int + 1, x, yy) {
                    line.colour
                } else {
                    base.spec_pixel_up(x, yy)
                }) by {
                    lemma_marks_cover_step(data, vmax, sp, pd, k as int, x, yy);
                    assert(ybs@[k as int] == line_point_height(data, vmax, sp, pd, k as int));
                }
            }
            k += 1;
        }
        Ok(())
    }

    /// The x position of slot boundary `k`, with room for one pixel.
    fn point_x(&self, k: usize) -> (r: usize)
        requires
            self.wf(),
            k < self.spec_point_count(),
            1 <= self.spec_padding().right,
        ensures
            r == self.spec_padding().left + k * self.spec_spacing().horizontal,
            r + 1 <= self.spec_canvas().spec_width(),
            k + 1 < self.spec_point_count() ==> r + self.spec_spacing().horizontal + 1
                <= self.spec_canvas().spec_width(),
    {
        let ghost pc = self.spec_point_count() as int;
        let ghost hs = self.spec_spacing().horizontal as int;
        proof {
            assert(self.spec_canvas().spec_width() <= MAX_CANVAS_AREA) by (nonlinear_arith)
                requires
                    self.spec_canvas().spec_width() as int * self.spec_canvas().spec_height()
                        as int <= MAX_CANVAS_AREA,
                    self.spec_canvas().spec_height() >= 1,
            ;
            assert(k as int * hs <= (pc - 1) * hs && 0 <= k as int * hs && (k as int + 1) * hs == k
                as int * hs + hs && (k as int + 1 <= pc - 1 ==> (k as int + 1) * hs <= (pc - 1)
                * hs)) by (nonlinear_arith)
                requires
                    0 <= k as int <= pc - 1,
                    hs >= 1,
            ;
        }
        self.padding.left as usize + k * self.spacing.horizontal as usize
    }

    /// Rasterize one segment: every column between the two slot
    /// boundaries takes the span between the previous and the current
    /// sampled height, so the drawn line is connected; no other pixel
    /// changes.
    fn draw_segment(&mut self, x0: usize, yb0: usize, yb1: usize, colour: Rgb)
        requires
            old(self).wf(),
            x0 + old(self).spec_spacing().horizontal + 1 <= old(self).spec_canvas().spec_width(),
            yb0 < old(self).spec_canvas().spec_height(),
            yb1 < old(self).spec_canvas().spec_height(),
        ensures
            final(self).wf(),
            final(self).same_frame(old(self)),
            final(self).spec_canvas().spec_width() == old(self).spec_canvas().spec_width(),
            final(self).spec_canvas().spec_height() == old(self).spec_canvas().spec_height(),
            forall|x: int, yb: int|
                0 <= x < old(self).spec_canvas().spec_width() && 0 <= yb < old(
                    self,
                ).spec_canvas().spec_height() ==> final(self).spec_pixel_up(x, yb) == (
                if segment_column_covers(
                    x0 as int,
                    yb0 as int,
                    yb1 as int,
                    old(self).spec_spacing().horizontal as int,
                    x,
                    yb,
                ) {
                    colour
                } else {
                    old(self).spec_pixel_up(x, yb)
                }),
    {
        let hs = self.spacing.horizontal as usize;
        proof {
            assert(self.spec_canvas().spec_height() <= MAX_CANVAS_AREA) by (nonlinear_arith)
                requires
                    self.spec_canvas().spec_width() as int * self.spec_canvas().spec_height()
                        as int <= MAX_CANVAS_AREA,
                    self.spec_canvas().spec_width() >= 1,
            ;
        }
        let mut prev = yb0;
        let mut dx: usize = 1;
        proof {
            vstd::arithmetic::div_mod::lemma_fundamental_div_mod(hs as int, 2);
            vstd::arithmetic::div_mod::lemma_basic_div(hs as int / 2, hs as int);
            assert(spec_interp(yb0 as int, yb1 as int, 0, hs as int) == yb0);
        }
        while dx <= hs
            invariant
                self.wf(),
                self.same_frame(old(self)),
                self.spec_canvas().spec_width() == old(self).spec_canvas().spec_width(),
                self.spec_canvas().spec_height() == old(self).spec_canvas().spec_height(),
                self.spec_canvas().spec_height() <= MAX_CANVAS_AREA,
                hs == self.spec_spacing().horizontal,
                x0 + hs + 1 <= self.spec_canvas().spec_width(),
                yb0 < self.spec_canvas().spec_height(),
                yb1 < self.spec_canvas().spec_height(),
                prev < self.spec_canvas().spec_height(),
                1 <= dx <= hs + 1,
                prev == spec_interp(yb0 as int, yb1 as int, dx - 1, hs as int),
                forall|x: int, yb: int|
                    0 <= x < old(self).spec_canvas().spec_width() && 0 <= yb < old(
                        self,
                    ).spec_canvas().spec_height() ==> self.spec_pixel_up(x, yb) == (
                    if segment_column_covers(
                        x0 as int,
                        yb0 as int,
                        yb1 as int,
                        hs as int,
                        x,
                        yb,
                    ) && x <= x0 + dx - 1 {
                        colour
                    } else {
                        old(self).spec_pixel_up(x, yb)
                    }),
            decreases hs + 1 - dx,
        {
            let y = interpolate_height(yb0, yb1, dx, hs);
            let lo = if prev <= y {
                prev
            } else {
                y
            };
            let hi = if prev <= y {
                y
            } else {
                prev
            };
            self.fill_rect_up(x0 + dx, lo, 1, hi - lo + 1, colour);
            prev = y;
            dx += 1;
        }
    }

    /// Blend one glyph's alpha bitmap onto the canvas in the given
    /// colour: each inked cell blends over what lies under it, exactly
    /// as [`glyph_blend_at`] states, and no other pixel changes.
    fn blit_glyph(&mut self, glyph: &Glyph, gx: usize, gy: usize, colour: Rgb)
        requires
            old(self).wf(),
            gx + glyph.cols <= old(self).spec_canvas().spec_width(),
            gy + glyph.rows <= old(self).spec_canvas().spec_height(),
            glyph.alpha@.len() == glyph.cols * glyph.rows,
        ensures
            final(self).wf(),
            final(self).same_frame(old(self)),
            final(self).spec_canvas().spec_width() == old(self).spec_canvas().spec_width(),
            final(self).spec_canvas().spec_height() == old(self).spec_canvas().spec_height(),
            forall|x: int, y: int|
                0 <= x < old(self).spec_canvas().spec_width() && 0 <= y < old(
                    self,
                ).spec_canvas().spec_height() ==> final(self).spec_canvas().spec_pixel(x, y)
                    == glyph_blend_at(
                    *glyph,
                    gx as int,
                    gy as int,
                    colour,
                    old(self).spec_canvas().spec_pixel(x, y),
                    x,
                    y,
                ),
    {
        let cols = glyph.cols as usize;
        let rows = glyph.rows as usize;
        let alen = glyph.alpha.len();
        let mut r: usize = 0;
        while r < rows
            invariant
                self.wf(),
                self.same_frame(old(self)),
                self.spec_canvas().spec_width() == old(self).spec_canvas().spec_width(),
                self.spec_canvas().spec_height() == old(self).spec_canvas().spec_height(),
                cols == glyph.cols,
                rows == glyph.rows,
                r <= rows,
                gx + cols <= self.spec_canvas().spec_width(),
                gy + rows <= self.spec_canvas().spec_height(),
                glyph.alpha@.len() == cols * rows,
                alen == glyph.alpha@.len(),
                forall|x: int, y: int|
                    0 <= x < old(self).spec_canvas().spec_width() && 0 <= y < old(
                        self,
                    ).spec_canvas().spec_height() ==> self.spec_canvas().spec_pixel(x, y) == (
                    if gx <= x < gx + cols && gy <= y < gy + r && glyph.alpha@[(y - gy) * cols + (x
                        - gx)] > 0 {
                        blend_colour(
                            colour,
                            old(self).spec_canvas().spec_pixel(x, y),
                            glyph.alpha@[(y - gy) * cols + (x - gx)] as int,
                        )
                    } else {
                        old(self).spec_canvas().spec_pixel(x, y)
                    }),
            decreases rows - r,
        {
            let mut c: usize = 0;
            while c < cols
                invariant
                    self.wf(),
                    self.same_frame(old(self)),
                    self.spec_canvas().spec_width() == old(self).spec_canvas().spec_width(),
                    self.spec_canvas().spec_height() == old(self).spec_canvas().spec_height(),
                    cols == glyph.cols,
                    rows == glyph.rows,
                    r < rows,
                    c <= cols,
                    gx + cols <= self.spec_canvas().spec_width(),
                    gy + rows <= self.spec_canvas().spec_height(),
                    glyph.alpha@.len() == cols * rows,
                    alen == glyph.alpha@.len(),
                    forall|x: int, y: int|
                        0 <= x < old(self).spec_canvas().spec_width() && 0 <= y < old(
                            self,
                        ).spec_canvas().spec_height() ==> self.spec_canvas().spec_pixel(x, y) == (
                        if gx <= x < gx + cols && (gy <= y < gy + r || (y == gy + r && gx <= x < gx
                            + c)) && glyph.alpha@[(y - gy) * cols + (x - gx)] > 0 {
                            blend_colour(
                                colour,
                                old(self).spec_canvas().spec_pixel(x, y),
                                glyph.alpha@[(y - gy) * cols + (x - gx)] as int,
                            )
                        } else {
                            old(self).spec_canvas().spec_pixel(x, y)
                        }),
                decreases cols - c,
            {
                proof {
                    assert(r * cols + c < rows * cols && rows * cols == cols * rows)
                        by (nonlinear_arith)
                        requires
                            0 <= r < rows,
                            0 <= c < cols,
                    ;
                    assert(r * cols + c < alen);
                }
                let a = glyph.alpha[r * cols + c];
                if a > 0 {
                    self.canvas.blend_pixel(gx + c, gy + r, colour, a);
                }
                c += 1;
            }
            r += 1;
        }
    }

    /// Draw a laid-out text box into the top margin, its bottom edge
    /// resting on the plotting grid's upper padding line: the box's
    /// placements are blended in order, exactly as
    /// [`placed_text_pixel`] states, so no pixel outside the box's
    /// rectangle changes. Succeeds exactly when the box fits the margin
    /// in both directions; on failure nothing is drawn.
    pub fn draw_text_box(&mut self, text_box: &TextBox, font: &RasterFont) -> (r: Result<
        (),
        Error,
    >)
        requires
            old(self).wf(),
            font.wf(),
            text_box.wf(font),
        ensures
            final(self).wf(),
            final(self).same_frame(old(self)),
            final(self).spec_canvas().spec_width() == old(self).spec_canvas().spec_width(),
            final(self).spec_canvas().spec_height() == old(self).spec_canvas().spec_height(),
            r is Ok <==> text_box.spec_height() <= old(self).spec_padding().above && old(
                self,
            ).spec_padding().left + text_box.spec_max_width() <= old(
                self,
            ).spec_canvas().spec_width(),
            r matches Err(e) ==> e is Unfriendly && *final(self) == *old(self),
            r is Ok ==> forall|x: int, y: int|
                0 <= x < old(self).spec_canvas().spec_width() && 0 <= y < old(
                    self,
                ).spec_canvas().spec_height() ==> final(self).spec_canvas().spec_pixel(x, y)
                    == placed_text_pixel(
                    font,
                    text_box.spec_placed(),
                    old(self).spec_padding().left as int,
                    old(self).spec_padding().above - text_box.spec_height(),
                    font.spec_line_height() as int,
                    old(self).spec_canvas().spec_pixel(x, y),
                    x,
                    y,
                ),
            forall|x: int, y: int|
                0 <= x < old(self).spec_canvas().spec_width() && 0 <= y < old(
                    self,
                ).spec_canvas().spec_height() && !(old(self).spec_padding().left <= x < old(
                    self,
                ).spec_padding().left + text_box.spec_max_width() && old(
                    self,
                ).spec_padding().above - text_box.spec_height() <= y < old(
                    self,
                ).spec_padding().above) ==> final(self).spec_canvas().spec_pixel(x, y) == old(
                    self,
                ).spec_canvas().spec_pixel(x, y),
    {
        let above = self.padding.above as usize;
        let left = self.padding.left as usize;
        let tbh = text_box.height() as usize;
        if tbh > above {
            return Err(Error::custom_unfriendly("label too tall for the margin".to_owned()));
        }
        if (left as u64) + (text_box.max_width() as u64) > self.canvas.width() as u64 {
            return Err(Error::custom_unfriendly("label too wide for the canvas".to_owned()));
        }
        let top0 = above - tbh;
        let lh = text_box.line_height() as usize;
        let n = text_box.placed_len();
        let ghost box_left = left as int;
        let ghost box_right = left as int + text_box.spec_max_width();
        let ghost box_top = top0 as int;
        let ghost box_bottom = above as int;
        let ghost placed = text_box.spec_placed();
        let mut i: usize = 0;
        proof {
            assert(placed.take(0) =~= Seq::<PlacedGlyph>::empty());
        }
        while i < n
            invariant
                self.wf(),
                self.same_frame(old(self)),
                self.spec_canvas().spec_width() == old(self).spec_canvas().spec_width(),
                self.spec_canvas().spec_height() == old(self).spec_canvas().spec_height(),
                font.wf(),
                text_box.wf(font),
                placed == text_box.spec_placed(),
                n == text_box.spec_placed().len(),
                i <= n,
                left == self.spec_padding().left,
                above == self.spec_padding().above,
                tbh == text_box.spec_height(),
                top0 == above - tbh,
                lh == text_box.spec_line_height(),
                lh == font.spec_line_height(),
                box_left == left as int,
                box_right == left as int + text_box.spec_max_width(),
                box_top == top0 as int,
                box_bottom == above as int,
                left as int + text_box.spec_max_width() <= self.spec_canvas().spec_width(),
                forall|x: int, y: int|
                    0 <= x < old(self).spec_canvas().spec_width() && 0 <= y < old(
                        self,
                    ).spec_canvas().spec_height() ==> self.spec_canvas().spec_pixel(x, y)
                        == placed_text_pixel(
                        font,
                        placed.take(i as int),
                        box_left,
                        box_top,
                        lh as int,
                        old(self).spec_canvas().spec_pixel(x, y),
                        x,
                        y,
                    ),
                forall|x: int, y: int|
                    0 <= x < old(self).spec_canvas().spec_width() && 0 <= y < old(
                        self,
                    ).spec_canvas().spec_height() && !(box_left <= x < box_right && box_top <= y
                        < box_bottom) ==> self.spec_canvas().spec_pixel(x, y) == old(
                        self,
                    ).spec_canvas().spec_pixel(x, y),
            decreases n - i,
        {
            let ghost mid = *self;
            let p = text_box.placed(i);
            proof {
                assert(placed.take(i as int + 1).drop_last() =~= placed.take(i as int));
                assert(placed.take(i as int + 1).last() == placed[i as int]);
            }
            match font.find_glyph(p.ch) {
                None => {
                    proof {
                        assert forall|x: int, y: int|
                            0 <= x < old(self).spec_canvas().spec_width() && 0 <= y < old(
                                self,
                            ).spec_canvas().spec_height() implies self.spec_canvas().spec_pixel(
                            x,
                            y,
                        ) == placed_text_pixel(
                            font,
                            placed.take(i as int + 1),
                            box_left,
                            box_top,
                            lh as int,
                            old(self).spec_canvas().spec_pixel(x, y),
                            x,
                            y,
                        ) by {}
                    }
                },
                Some(gi) => {
                    proof {
                        lemma_glyph_index_valid(font.spec_glyphs(), p.ch);
                        assert(text_box.spec_placed()[i as int].x + font.spec_advance(
                            text_box.spec_placed()[i as int].ch,
                        ) <= text_box.spec_max_width());
                        assert(font.spec_glyphs()[gi as int].wf(font.spec_line_height() as int));
                        assert((p.line as int + 1) * lh as int <= text_box.spec_line_count() as int
                            * lh as int) by (nonlinear_arith)
                            requires
                                0 <= p.line as int + 1 <= text_box.spec_line_count() as int,
                                lh as int >= 0,
                        ;
                        assert(p.line as int * lh as int + lh as int == (p.line as int + 1)
                            * lh as int) by (nonlinear_arith);
                        assert(0 <= p.line as int * lh as int) by (nonlinear_arith)
                            requires
                                0 <= p.line as int,
                                0 <= lh as int,
                        ;
                        assert(text_box.spec_line_count() as int * lh as int
                            == text_box.spec_height());
                    }
                    let glyph = font.glyph(gi);
                    let gx = left + p.x as usize + glyph.left as usize;
                    let gy = top0 + (p.line as usize) * lh + glyph.top as usize;
                    self.blit_glyph(glyph, gx, gy, p.colour);
                    proof {
                        assert forall|x: int, y: int|
                            0 <= x < old(self).spec_canvas().spec_width() && 0 <= y < old(
                                self,
                            ).spec_canvas().spec_height() implies self.spec_canvas().spec_pixel(
                            x,
                            y,
                        ) == placed_text_pixel(
                            font,
                            placed.take(i as int + 1),
                            box_left,
                            box_top,
                            lh as int,
                            old(self).spec_canvas().spec_pixel(x, y),
                            x,
                            y,
                        ) by {
                            assert(self.spec_canvas().spec_pixel(x, y) == glyph_blend_at(
                                *glyph,
                                gx as int,
                                gy as int,
                                p.colour,
                                mid.spec_canvas().spec_pixel(x, y),
                                x,
                                y,
                            ));
                        }
                    }
                },
            }
            i += 1;
        }
        proof {
            assert(placed.take(n as int) =~= placed);
        }
        Ok(())
    }

    /// Draw the grid and its labels. Grid lines recur every `line()`
    /// units of each interval; every `label()` units the value is
    /// written in the left margin (for the vertical axis) or the
    /// supplied tick label under the point (for the horizontal axis).
    /// Labels are drawn first and the grid lines over them, so every
    /// grid row and column is grey afterwards; labels that do not fit
    /// the margins are dropped, not clipped, and no pixel outside the
    /// marks' own region changes. Succeeds exactly when the label range
    /// spans as many values as the panel's range length; on failure
    /// nothing is drawn.
    pub fn draw_axis_grid_labels(&mut self, marks: AxisGridLabels, font: &RasterFont) -> (r: Result<
        (),
        Error,
    >)
        requires
            old(self).wf(),
            font.wf(),
            marks.vertical_label_range.wf(),
            marks.vertical_intervals.wf(),
            marks.horizontal_intervals.wf(),
        ensures
            final(self).wf(),
            final(self).same_frame(old(self)),
            final(self).spec_canvas().spec_width() == old(self).spec_canvas().spec_width(),
            final(self).spec_canvas().spec_height() == old(self).spec_canvas().spec_height(),
            r is Ok <==> marks.vertical_label_range.spec_len() == old(self).spec_range_len() as int,
            r matches Err(e) ==> e is Unfriendly && *final(self) == *old(self),
            forall|x: int, y: int|
                0 <= x < old(self).spec_canvas().spec_width() && 0 <= y < old(
                    self,
                ).spec_canvas().spec_height() && !axis_marks_touched(
                    *old(self),
                    marks,
                    font.spec_line_height() as int,
                    x,
                    y,
                ) ==> final(self).spec_canvas().spec_pixel(x, y) == old(
                    self,
                ).spec_canvas().spec_pixel(x, y),
            r is Ok ==> forall|u: int, x: int|
                0 <= u < old(self).spec_range_len() && u % marks.vertical_intervals.spec_line()
                    as int == 0 && old(self).spec_padding().left <= x < old(
                    self,
                ).spec_canvas().spec_width() - old(self).spec_padding().right
                    ==> #[trigger] final(self).spec_pixel_up(x, grid_row_yb(*old(self), u)) == (Rgb {
                    red: 60u8,
                    green: 60u8,
                    blue: 60u8,
                }),
            r is Ok ==> forall|k: int, yb: int|
                0 <= k < old(self).spec_point_count() && k
                    % marks.horizontal_intervals.spec_line() as int == 0 && grid_col_x(
                    *old(self),
                    k,
                ) + 1 <= old(self).spec_canvas().spec_width() && old(self).spec_padding().below
                    <= yb <= old(self).spec_padding().below + (old(self).spec_range_len() - 1)
                    * old(self).spec_spacing().vertical ==> #[trigger] final(self).spec_pixel_up(
                    grid_col_x(*old(self), k),
                    yb,
                ) == (Rgb { red: 60u8, green: 60u8, blue: 60u8 }),
    {
        if marks.vertical_label_range.len() != self.range_len as u64 {
            return Err(Error::custom_unfriendly("label range does not span the panel".to_owned()));
        }
        let grey = Rgb::new(60, 60, 60);
        let white = Rgb::new(255, 255, 255);
        let width = self.canvas.width();
        let height = self.canvas.height();
        let rl = self.range_len;
        let pc = self.point_count;
        let hs = self.spacing.horizontal as usize;
        let vs = self.spacing.vertical as usize;
        let left = self.padding.left as usize;
        let right = self.padding.right as usize;
        let below = self.padding.below as usize;
        let lh = font.line_height() as usize;
        proof {
            assert((pc - 1) as int * hs as int >= 0 && rl as int * vs as int >= 0)
                by (nonlinear_arith)
                requires
                    pc >= 1,
                    hs >= 0,
                    rl >= 0,
                    vs >= 0,
            ;
            assert(height <= MAX_CANVAS_AREA) by (nonlinear_arith)
                requires
                    width as int * height as int <= MAX_CANVAS_AREA,
                    width >= 1,
            ;
            assert(width <= MAX_CANVAS_AREA) by (nonlinear_arith)
                requires
                    width as int * height as int <= MAX_CANVAS_AREA,
                    height >= 1,
            ;
            assert(pc as int - 1 <= (pc as int - 1) * hs as int) by (nonlinear_arith)
                requires
                    pc >= 1,
                    hs >= 1,
            ;
        }
        let plot_width = width - left - right;
        // Vertical axis labels in the left margin, one every `label()`
        // units, vertically centred on their grid line.
        let start = marks.vertical_label_range.start();
        let label_step = marks.vertical_intervals.label();
        let mut u: u64 = 0;
        while u < rl as u64
            invariant
                self.wf(),
                self.same_frame(old(self)),
                self.spec_canvas().spec_width() == old(self).spec_canvas().spec_width(),
                self.spec_canvas().spec_height() == old(self).spec_canvas().spec_height(),
                font.wf(),
                rl == self.spec_range_len(),
                vs == self.spec_spacing().vertical,
                below == self.spec_padding().below,
                height == self.spec_canvas().spec_height(),
                height <= MAX_CANVAS_AREA,
                lh == font.spec_line_height(),
                start == marks.vertical_label_range.spec_start(),
                start as int + rl as int - 1 <= i32::MAX,
                1 <= label_step,
                label_step == marks.vertical_intervals.spec_label(),
                u % label_step as u64 == 0,
                forall|x: int, y: int|
                    0 <= x < old(self).spec_canvas().spec_width() && 0 <= y < old(
                        self,
                    ).spec_canvas().spec_height() && !axis_marks_touched(
                        *old(self),
                        marks,
                        lh as int,
                        x,
                        y,
                    ) ==> self.spec_canvas().spec_pixel(x, y) == old(
                        self,
                    ).spec_canvas().spec_pixel(x, y),
            decreases rl as u64 + label_step as u64 - u,
        {
            proof {
                assert(u as int * vs as int + vs as int <= rl as int * vs as int && 0 <= u as int
                    * vs as int) by (nonlinear_arith)
                    requires
                        0 <= u as int <= rl as int - 1,
                        vs >= 1,
                ;
            }
            let value = ((start as i64) + (u as i64)) as i32;
            let chars = crate::text::fixed_label_chars(value);
            let yb = below + (u as usize) * vs;
            let row = (height as i64) - 1 - (yb as i64) - ((lh as i64) / 2);
            if row >= 0 {
                let ghost mid = *self;
                self.draw_chars(&chars, 1, row as usize, white, font);
                proof {
                    assert forall|px: int, py: int|
                        0 <= px < old(self).spec_canvas().spec_width() && 0 <= py < old(
                            self,
                        ).spec_canvas().spec_height() && !axis_marks_touched(
                        *old(self),
                        marks,
                        lh as int,
                        px,
                        py,
                    ) implies self.spec_canvas().spec_pixel(px, py) == old(
                        self,
                    ).spec_canvas().spec_pixel(px, py) by {
                        if 1 <= px && row as int <= py < row as int + lh as int {
                            assert(axis_marks_touched(*old(self), marks, lh as int, px, py)) by {
                                assert(0 <= (u as int) && (u as int) < rl as int && u as int
                                    % marks.vertical_intervals.spec_label() as int == 0 && 1 <= px
                                    && height as int - 1 - (below as int + (u as int * vs as int))
                                    - lh as int / 2 <= py < height as int - 1 - (below as int + u
                                    as int * vs as int) - lh as int / 2 + lh as int);
                            }
                        }
                        assert(self.spec_canvas().spec_pixel(px, py) == mid.spec_canvas(
                        ).spec_pixel(px, py));
                    }
                }
            }
            proof {
                vstd::arithmetic::div_mod::lemma_mod_multiples_vanish(
                    1,
                    u as int,
                    label_step as int,
                );
            }
            u = u + label_step as u64;
        }
        // Tick labels under the horizontal axis, one every `label()`
        // points.
        let nlab = marks.horizontal_labels.len();
        let tick_step = marks.horizontal_intervals.label();
        let mut k: u64 = 0;
        while k < pc as u64
            invariant
                self.wf(),
                self.same_frame(old(self)),
                self.spec_canvas().spec_width() == old(self).spec_canvas().spec_width(),
                self.spec_canvas().spec_height() == old(self).spec_canvas().spec_height(),
                font.wf(),
                pc == self.spec_point_count(),
                hs == self.spec_spacing().horizontal,
                below == self.spec_padding().below,
                left == self.spec_padding().left,
                width == self.spec_canvas().spec_width(),
                width <= MAX_CANVAS_AREA,
                height == self.spec_canvas().spec_height(),
                height <= MAX_CANVAS_AREA,
                below as int <= height as int,
                lh == font.spec_line_height(),
                nlab == marks.horizontal_labels@.len(),
                pc as int <= MAX_CANVAS_AREA + 1,
                1 <= tick_step,
                forall|x: int, y: int|
                    0 <= x < old(self).spec_canvas().spec_width() && 0 <= y < old(
                        self,
                    ).spec_canvas().spec_height() && !axis_marks_touched(
                        *old(self),
                        marks,
                        lh as int,
                        x,
                        y,
                    ) ==> self.spec_canvas().spec_pixel(x, y) == old(
                        self,
                    ).spec_canvas().spec_pixel(x, y),
            decreases pc as u64 + tick_step as u64 - k,
        {
            if k < nlab as u64 {
                let chars = crate::text::tick_label_chars(marks.horizontal_labels[k as usize]);
                proof {
                    assert(k as int * hs as int <= (pc - 1) as int * hs as int && 0 <= k as int
                        * hs as int) by (nonlinear_arith)
                        requires
                            0 <= k as int <= pc as int - 1,
                            hs >= 1,
                    ;
                }
                let xb = (left as u64) + k * (hs as u64);
                let xpos: u64 = if marks.horizontal_labels_centered {
                    let text_width = crate::text::chars_width(&chars, font);
                    let centre = xb + (hs as u64) / 2;
                    if centre > text_width / 2 {
                        centre - text_width / 2
                    } else {
                        0
                    }
                } else {
                    xb + 2
                };
                let row = height - below + 2;
                if xpos <= width as u64 {
                    let ghost mid = *self;
                    self.draw_chars(&chars, xpos as usize, row, white, font);
                    proof {
                        assert forall|px: int, py: int|
                            0 <= px < old(self).spec_canvas().spec_width() && 0 <= py < old(
                                self,
                            ).spec_canvas().spec_height() && !axis_marks_touched(
                            *old(self),
                            marks,
                            lh as int,
                            px,
                            py,
                        ) implies self.spec_canvas().spec_pixel(px, py) == old(
                            self,
                        ).spec_canvas().spec_pixel(px, py) by {
                            assert(self.spec_canvas().spec_pixel(px, py) == mid.spec_canvas(
                            ).spec_pixel(px, py));
                        }
                    }
                }
            }
            k = k + tick_step as u64;
        }
        // Horizontal grid lines, one every `line()` axis units.
        let row_step = marks.vertical_intervals.line();
        let mut u: u64 = 0;
        while u < rl as u64
            invariant
                self.wf(),
                self.same_frame(old(self)),
                self.spec_canvas().spec_width() == old(self).spec_canvas().spec_width(),
                self.spec_canvas().spec_height() == old(self).spec_canvas().spec_height(),
                rl == self.spec_range_len(),
                vs == self.spec_spacing().vertical,
                below == self.spec_padding().below,
                left == self.spec_padding().left,
                right == self.spec_padding().right,
                width == self.spec_canvas().spec_width(),
                height == self.spec_canvas().spec_height(),
                lh == font.spec_line_height(),
                plot_width == width - left - right,
                left + plot_width <= width,
                1 <= row_step,
                row_step == marks.vertical_intervals.spec_line(),
                u % row_step as u64 == 0,
                grey == (Rgb { red: 60u8, green: 60u8, blue: 60u8 }),
                forall|x: int, y: int|
                    0 <= x < old(self).spec_canvas().spec_width() && 0 <= y < old(
                        self,
                    ).spec_canvas().spec_height() && !axis_marks_touched(
                        *old(self),
                        marks,
                        lh as int,
                        x,
                        y,
                    ) ==> self.spec_canvas().spec_pixel(x, y) == old(
                        self,
                    ).spec_canvas().spec_pixel(x, y),
                forall|u2: int, x2: int|
                    0 <= u2 < rl && u2 % row_step as int == 0 && u2 < u && left <= x2 < left
                        + plot_width ==> #[trigger] self.spec_pixel_up(
                        x2,
                        grid_row_yb(*old(self), u2),
                    ) == (Rgb { red: 60u8, green: 60u8, blue: 60u8 }),
            decreases rl as u64 + row_step as u64 - u,
        {
            proof {
                assert(u as int * vs as int + vs as int <= rl as int * vs as int && 0 <= u as int
                    * vs as int) by (nonlinear_arith)
                    requires
                        0 <= u as int <= rl as int - 1,
                        vs >= 1,
                ;
            }
            let yb = below + (u as usize) * vs;
            let ghost mid = *self;
            self.fill_rect_up(left, yb, plot_width, 1, grey);
            proof {
                assert forall|px: int, py: int|
                    0 <= px < old(self).spec_canvas().spec_width() && 0 <= py < old(
                        self,
                    ).spec_canvas().spec_height() && !axis_marks_touched(
                    *old(self),
                    marks,
                    lh as int,
                    px,
                    py,
                ) implies self.spec_canvas().spec_pixel(px, py) == old(self).spec_canvas(
                ).spec_pixel(px, py) by {
                    if left <= px < left + plot_width && py == height as int - 1 - yb as int {
                        assert(axis_marks_touched(*old(self), marks, lh as int, px, py)) by {
                            assert(0 <= (u as int) && (u as int) < rl as int && u as int
                                % marks.vertical_intervals.spec_line() as int == 0 && left as int
                                <= px < width as int - right as int && py == height as int - 1 - (
                            below as int + (u as int * vs as int)));
                        }
                    }
                    let ybq = height as int - 1 - py;
                    assert(self.spec_pixel_up(px, ybq) == mid.spec_pixel_up(px, ybq));
                    assert(self.spec_canvas().spec_pixel(px, py) == mid.spec_canvas().spec_pixel(
                        px,
                        py,
                    ));
                }
                assert forall|u2: int, x2: int|
                    0 <= u2 < rl && u2 % row_step as int == 0 && u2 < u + row_step && left <= x2
                        < left + plot_width implies #[trigger] self.spec_pixel_up(
                    x2,
                    grid_row_yb(*old(self), u2),
                ) == (Rgb { red: 60u8, green: 60u8, blue: 60u8 }) by {
                    assert(0 <= u2 * vs as int && u2 * vs as int <= (rl as int - 1) * vs as int
                        && (rl as int - 1) * vs as int + below + 1 <= height) by (nonlinear_arith)
                        requires
                            0 <= u2 <= rl as int - 1,
                            vs >= 1,
                            rl as int * vs as int + below as int <= height as int,
                    ;
                    let ybq = grid_row_yb(*old(self), u2);
                    if u2 < u {
                        assert((u2 * (vs as int)) < ((u as int) * (vs as int))) by (nonlinear_arith)
                            requires
                                u2 < u as int,
                                vs >= 1,
                                0 <= u2,
                        ;
                        assert(self.spec_pixel_up(x2, ybq) == mid.spec_pixel_up(x2, ybq));
                        assert(mid.spec_pixel_up(x2, ybq) == (Rgb {
                            red: 60u8,
                            green: 60u8,
                            blue: 60u8,
                        }));
                    } else if u2 > u {
                        lemma_multiple_gap(u as int, u2, row_step as int);
                        assert((u2 * (vs as int)) >= ((u as int) + row_step) * (vs as int))
                            by (nonlinear_arith)
                            requires
                                u2 >= u as int + row_step,
                                vs >= 1,
                        ;
                    } else {
                        assert(self.spec_pixel_up(x2, ybq) == grey);
                    }
                }
            }
            proof {
                vstd::arithmetic::div_mod::lemma_mod_multiples_vanish(1, u as int, row_step as int);
            }
            u = u + row_step as u64;
        }
        // Vertical grid lines, one every `line()` data points.
        proof {
            assert((rl - 1) as int * vs as int + 1 <= rl as int * vs as int && 0 <= (rl - 1) as int
                * vs as int) by (nonlinear_arith)
                requires
                    rl >= 1,
                    vs >= 1,
            ;
        }
        let grid_height = (rl as usize - 1) * vs + 1;
        let col_step = marks.horizontal_intervals.line();
        let mut k: u64 = 0;
        while k < pc as u64
            invariant
                self.wf(),
                self.same_frame(old(self)),
                self.spec_canvas().spec_width() == old(self).spec_canvas().spec_width(),
                self.spec_canvas().spec_height() == old(self).spec_canvas().spec_height(),
                pc == self.spec_point_count(),
                rl == self.spec_range_len(),
                hs == self.spec_spacing().horizontal,
                vs == self.spec_spacing().vertical,
                below == self.spec_padding().below,
                left == self.spec_padding().left,
                right == self.spec_padding().right,
                width == self.spec_canvas().spec_width(),
                height == self.spec_canvas().spec_height(),
                width <= MAX_CANVAS_AREA,
                lh == font.spec_line_height(),
                plot_width == width - left - right,
                grid_height == (rl - 1) as int * vs as int + 1,
                below as int + grid_height <= self.spec_canvas().spec_height(),
                pc as int <= MAX_CANVAS_AREA + 1,
                1 <= col_step,
                col_step == marks.horizontal_intervals.spec_line(),
                k % col_step as u64 == 0,
                grey == (Rgb { red: 60u8, green: 60u8, blue: 60u8 }),
                forall|x: int, y: int|
                    0 <= x < old(self).spec_canvas().spec_width() && 0 <= y < old(
                        self,
                    ).spec_canvas().spec_height() && !axis_marks_touched(
                        *old(self),
                        marks,
                        lh as int,
                        x,
                        y,
                    ) ==> self.spec_canvas().spec_pixel(x, y) == old(
                        self,
                    ).spec_canvas().spec_pixel(x, y),
                forall|u2: int, x2: int|
                    0 <= u2 < rl && u2 % marks.vertical_intervals.spec_line() as int == 0 && left
                        <= x2 < left + plot_width ==> #[trigger] self.spec_pixel_up(
                        x2,
                        grid_row_yb(*old(self), u2),
                    ) == (Rgb { red: 60u8, green: 60u8, blue: 60u8 }),
                forall|k2: int, yb2: int|
                    0 <= k2 < pc && k2 % col_step as int == 0 && k2 < k && grid_col_x(
                        *old(self),
                        k2,
                    ) + 1 <= width && below <= yb2 <= below + (rl - 1) as int * vs as int
                        ==> #[trigger] self.spec_pixel_up(grid_col_x(*old(self), k2), yb2) == (Rgb {
                        red: 60u8,
                        green: 60u8,
                        blue: 60u8,
                    }),
            decreases pc as u64 + col_step as u64 - k,
        {
            proof {
                assert(k as int * hs as int <= (pc - 1) as int * hs as int && 0 <= k as int
                    * hs as int) by (nonlinear_arith)
                    requires
                        0 <= k as int <= pc as int - 1,
                        hs >= 1,
                ;
            }
            let x = (left as u64) + k * (hs as u64);
            if x + 1 <= width as u64 {
                let ghost mid = *self;
                self.fill_rect_up(x as usize, below, 1, grid_height, grey);
                proof {
                    assert forall|px: int, py: int|
                        0 <= px < old(self).spec_canvas().spec_width() && 0 <= py < old(
                            self,
                        ).spec_canvas().spec_height() && !axis_marks_touched(
                        *old(self),
                        marks,
                        lh as int,
                        px,
                        py,
                    ) implies self.spec_canvas().spec_pixel(px, py) == old(self).spec_canvas(
                    ).spec_pixel(px, py) by {
                        if px == x as int && height as int - 1 - (below as int + (rl as int - 1)
                            * vs as int) <= py <= height as int - 1 - below as int {
                            assert(axis_marks_touched(*old(self), marks, lh as int, px, py)) by {
                                assert(0 <= (k as int) && (k as int) < pc as int && k as int
                                    % marks.horizontal_intervals.spec_line() as int == 0 && px
                                    == left as int + (k as int * hs as int) && height as int - 1 - (
                                below as int + (rl as int - 1) * vs as int) <= py <= height as int
                                    - 1 - below as int);
                            }
                        }
                        let ybq = height as int - 1 - py;
                        assert(self.spec_pixel_up(px, ybq) == mid.spec_pixel_up(px, ybq));
                        assert(self.spec_canvas().spec_pixel(px, py) == mid.spec_canvas(
                        ).spec_pixel(px, py));
                    }
                    assert forall|u2: int, x2: int|
                        0 <= u2 < rl && u2 % marks.vertical_intervals.spec_line() as int == 0
                            && left <= x2 < left + plot_width implies #[trigger] self.spec_pixel_up(
                        x2,
                        grid_row_yb(*old(self), u2),
                    ) == (Rgb { red: 60u8, green: 60u8, blue: 60u8 }) by {
                        assert(0 <= u2 * vs as int && u2 * vs as int <= (rl as int - 1)
                            * vs as int) by (nonlinear_arith)
                            requires
                                0 <= u2 <= rl as int - 1,
                                vs >= 1,
                        ;
                    }
                    assert forall|k2: int, yb2: int|
                        0 <= k2 < pc && k2 % col_step as int == 0 && k2 < k + col_step
                            && grid_col_x(*old(self), k2) + 1 <= width && below <= yb2 <= below + (
                        rl - 1) as int * vs as int implies #[trigger] self.spec_pixel_up(
                        grid_col_x(*old(self), k2),
                        yb2,
                    ) == (Rgb { red: 60u8, green: 60u8, blue: 60u8 }) by {
                        if k2 < k {
                            assert((k2 * (hs as int)) < ((k as int) * (hs as int))) by (nonlinear_arith)
                                requires
                                    0 <= k2 < k as int,
                                    hs >= 1,
                            ;
                        } else if k2 > k {
                            lemma_multiple_gap(k as int, k2, col_step as int);
                        }
                    }
                }
            } else {
                proof {
                    assert forall|k2: int, yb2: int|
                        0 <= k2 < pc && k2 % col_step as int == 0 && k2 < k + col_step
                            && grid_col_x(*old(self), k2) + 1 <= width && below <= yb2 <= below + (
                        rl - 1) as int * vs as int implies #[trigger] self.spec_pixel_up(
                        grid_col_x(*old(self), k2),
                        yb2,
                    ) == (Rgb { red: 60u8, green: 60u8, blue: 60u8 }) by {
                        if k2 < k {
                        } else if k2 > k {
                            lemma_multiple_gap(k as int, k2, col_step as int);
                        } else {
                            assert(k2 * hs as int == (k as int) * hs as int);
                        }
                    }
                }
            }
            proof {
                vstd::arithmetic::div_mod::lemma_mod_multiples_vanish(1, k as int, col_step as int);
            }
            k = k + col_step as u64;
        }
        Ok(())
    }

    /// Draw a character run starting at the given top-down position,
    /// dropping any glyph that would not fit the canvas. Only pixels at
    /// or right of the starting column, in the run's one line of rows,
    /// can change.
    fn draw_chars(&mut self, chars: &Vec<char>, x: usize, y: usize, colour: Rgb, font: &RasterFont)
        requires
            old(self).wf(),
            font.wf(),
            x <= MAX_CANVAS_AREA,
            y <= MAX_CANVAS_AREA + 2,
        ensures
            final(self).wf(),
            final(self).same_frame(old(self)),
            final(self).spec_canvas().spec_width() == old(self).spec_canvas().spec_width(),
            final(self).spec_canvas().spec_height() == old(self).spec_canvas().spec_height(),
            forall|px: int, py: int|
                0 <= px < old(self).spec_canvas().spec_width() && 0 <= py < old(
                    self,
                ).spec_canvas().spec_height() && (px < x || py < y || py >= y
                    + font.spec_line_height()) ==> final(self).spec_canvas().spec_pixel(px, py)
                    == old(self).spec_canvas().spec_pixel(px, py),
    {
        let n = chars.len();
        let width = self.canvas.width();
        let height = self.canvas.height();
        proof {
            assert(width <= MAX_CANVAS_AREA) by (nonlinear_arith)
                requires
                    width as int * self.spec_canvas().spec_height() as int <= MAX_CANVAS_AREA,
                    self.spec_canvas().spec_height() >= 1,
            ;
        }
        let mut pen: u64 = x as u64;
        let mut i: usize = 0;
        while i < n
            invariant
                self.wf(),
                self.same_frame(old(self)),
                self.spec_canvas().spec_width() == old(self).spec_canvas().spec_width(),
                self.spec_canvas().spec_height() == old(self).spec_canvas().spec_height(),
                font.wf(),
                n == chars@.len(),
                i <= n,
                width == self.spec_canvas().spec_width(),
                height == self.spec_canvas().spec_height(),
                x as u64 <= pen,
                pen <= MAX_CANVAS_AREA,
                width <= MAX_CANVAS_AREA,
                y <= MAX_CANVAS_AREA + 2,
                forall|px: int, py: int|
                    0 <= px < old(self).spec_canvas().spec_width() && 0 <= py < old(
                        self,
                    ).spec_canvas().spec_height() && (px < x || py < y || py >= y
                        + font.spec_line_height()) ==> self.spec_canvas().spec_pixel(px, py) == old(
                        self,
                    ).spec_canvas().spec_pixel(px, py),
            decreases n - i,
        {
            let c = chars[i];
            match font.find_glyph(c) {
                None => {},
                Some(gi) => {
                    proof {
                        lemma_glyph_index_valid(font.spec_glyphs(), c);
                        assert(font.spec_glyphs()[gi as int].wf(font.spec_line_height() as int));
                    }
                    let glyph = font.glyph(gi);
                    let gx = pen + glyph.left as u64;
                    if gx + glyph.cols as u64 <= width as u64 && (y as u64) + (glyph.rows as u64)
                        <= height as u64 {
                        self.blit_glyph(glyph, gx as usize, y, colour);
                    }
                    let next = pen + glyph.advance as u64;
                    if next > width as u64 {
                        return ;
                    }
                    pen = next;
                },
            }
            i += 1;
        }
    }

    /// Shared validation for per-slot (bar-style) series: one value per
    /// slot with a trailing margin, every value inside the range.
    pub(crate) fn check_bar_series(&self, data: &Vec<i32>) -> (r: Result<usize, Error>)
        requires
            self.wf(),
        ensures
            r is Ok <==> data@.len() + 1 == self.spec_point_count() && in_vertical_range(
                data@,
                self.spec_range_len() as int,
            ),
            r matches Ok(n) ==> n == data@.len(),
            r matches Err(e) ==> e is Unfriendly,
    {
        let n = data.len();
        if n != self.point_count - 1 {
            return Err(Error::custom_unfriendly("series length does not match".to_owned()));
        }
        let mut k: usize = 0;
        while k < n
            invariant
                n == data@.len(),
                k <= n,
                self.wf(),
                forall|j: int| 0 <= j < k ==> 0 <= #[trigger] data@[j] <= self.spec_range_len() - 1,
            decreases n - k,
        {
            let v = data[k];
            if v < 0 || v as u32 >= self.range_len {
                return Err(Error::custom_unfriendly("value outside the range".to_owned()));
            }
            k += 1;
        }
        Ok(n)
    }

    /// The left edge of slot `k` and the checked value there, with the
    /// bounds needed to fill that slot.
    fn bar_slot(&self, data: &Vec<i32>, k: usize) -> (r: (usize, usize))
        requires
            self.wf(),
            data@.len() + 1 == self.spec_point_count(),
            in_vertical_range(data@, self.spec_range_len() as int),
            k < data@.len(),
        ensures
            r.0 == self.spec_padding().left + k * self.spec_spacing().horizontal,
            r.1 == data@[k as int],
            r.0 + self.spec_spacing().horizontal <= self.spec_canvas().spec_width(),
            self.spec_padding().below + r.1 * self.spec_spacing().vertical
                + self.spec_spacing().vertical <= self.spec_canvas().spec_height(),
    {
        let ghost pc = self.spec_point_count() as int;
        let ghost hs = self.spec_spacing().horizontal as int;
        let ghost vs = self.spec_spacing().vertical as int;
        proof {
            assert(k as int * hs + hs == (k as int + 1) * hs) by (nonlinear_arith);
            assert(k as int * hs <= (k as int + 1) * hs && (k as int + 1) * hs <= (pc - 1) * hs && 0
                <= k as int * hs) by (nonlinear_arith)
                requires
                    0 <= k as int,
                    k as int + 1 <= pc - 1,
                    hs >= 1,
            ;
            assert(data@[k as int] * vs + vs <= self.spec_range_len() * vs && 0 <= data@[k as int]
                * vs) by (nonlinear_arith)
                requires
                    0 <= data@[k as int] <= self.spec_range_len() - 1,
                    vs >= 1,
            ;
            assert((self.spec_range_len() - 1) * vs == self.spec_range_len() * vs - vs)
                by (nonlinear_arith);
            assert(self.spec_canvas().spec_width() <= MAX_CANVAS_AREA) by (nonlinear_arith)
                requires
                    self.spec_canvas().spec_width() * self.spec_canvas().spec_height()
                        <= MAX_CANVAS_AREA,
                    self.spec_canvas().spec_height() >= 1,
            ;
        }
        let x0 = self.padding.left as usize + k * self.spacing.horizontal as usize;
        let v = data[k];
        (x0, v as usize)
    }
}

} // verus!
