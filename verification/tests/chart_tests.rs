use weather_charts::chart::{AxisGridLabels, Chart, GradientBars, HorizontalLines, Line, SolidBars};
use weather_charts::drawing::MarkIntervals;
use weather_charts::range::Range;
use weather_charts::text::{Glyph, RasterFont, TextBox, TextSegment};
use weather_charts::drawing::{Padding, Spacing};
use weather_charts::gradient::{GradientPoint, MultiPointGradient, Rgb};

fn colour(red: u8, green: u8, blue: u8) -> Rgb {
    Rgb { red, green, blue }
}

fn no_padding() -> Padding {
    Padding { above: 0, below: 0, left: 0, right: 0 }
}

#[test]
fn chart_canvas_has_the_dictated_size() {
    let spacing = Spacing { horizontal: 2, vertical: 2 };
    let padding = Padding { above: 1, below: 2, left: 3, right: 1 };
    let chart = Chart::new(4, 5, spacing, padding).unwrap();
    assert_eq!(chart.width(), 3 * 2 + 3 + 1);
    assert_eq!(chart.height(), 5 * 2 + 1 + 2);
}

#[test]
fn chart_rejects_a_degenerate_layout() {
    let spacing = Spacing { horizontal: 2, vertical: 2 };
    assert!(Chart::new(0, 5, spacing, no_padding()).is_err());
    assert!(Chart::new(4, 0, spacing, no_padding()).is_err());
    assert!(Chart::new(4, 5, Spacing { horizontal: 0, vertical: 2 }, no_padding()).is_err());
    assert!(Chart::new(4, 5, Spacing { horizontal: 2, vertical: 0 }, no_padding()).is_err());
    // a single point with no margins leaves a zero-width canvas
    assert!(Chart::new(1, 5, spacing, no_padding()).is_err());
}

#[test]
fn solid_bars_fill_their_slots() {
    let spacing = Spacing { horizontal: 2, vertical: 1 };
    let mut chart = Chart::new(3, 3, spacing, no_padding()).unwrap();
    chart.draw_solid_bars(SolidBars { colour: colour(5, 6, 7), data: vec![2, 1] }).unwrap();
    let canvas = chart.into_canvas();
    // bar 0 is two units tall, bar 1 one unit; rows count up from the bottom
    let height = canvas.height();
    for x in 0..canvas.width() {
        for up in 0..height {
            let in_bar_zero = x < 2 && up < 2;
            let in_bar_one = (2..4).contains(&x) && up < 1;
            let expected = if in_bar_zero || in_bar_one {
                colour(5, 6, 7)
            } else {
                colour(0, 0, 0)
            };
            assert_eq!(canvas.get_pixel(x, height - 1 - up), expected);
        }
    }
}

#[test]
fn solid_bars_reject_a_mismatched_series() {
    let spacing = Spacing { horizontal: 2, vertical: 1 };
    let mut chart = Chart::new(3, 3, spacing, no_padding()).unwrap();
    let r = chart.draw_solid_bars(SolidBars { colour: colour(5, 6, 7), data: vec![1, 1, 1] });
    assert!(r.is_err());
}

#[test]
fn solid_bars_reject_values_outside_the_range() {
    let spacing = Spacing { horizontal: 2, vertical: 1 };
    let mut chart = Chart::new(3, 3, spacing, no_padding()).unwrap();
    assert!(chart.draw_solid_bars(SolidBars { colour: colour(5, 6, 7), data: vec![3, 0] }).is_err());
    assert!(chart.draw_solid_bars(SolidBars { colour: colour(5, 6, 7), data: vec![-1, 0] }).is_err());
}

#[test]
fn all_zero_bars_draw_nothing_and_succeed() {
    let spacing = Spacing { horizontal: 2, vertical: 2 };
    let padding = Padding { above: 1, below: 2, left: 3, right: 1 };
    let mut chart = Chart::new(4, 5, spacing, padding).unwrap();
    chart.draw_solid_bars(SolidBars { colour: colour(50, 60, 70), data: vec![0, 0, 0] }).unwrap();
    let canvas = chart.into_canvas();
    for x in 0..canvas.width() {
        for y in 0..canvas.height() {
            assert_eq!(canvas.get_pixel(x, y), colour(0, 0, 0));
        }
    }
}

#[test]
fn line_clamps_values_above_max() {
    let spacing = Spacing { horizontal: 2, vertical: 1 };
    let padding = Padding { above: 0, below: 0, left: 0, right: 1 };
    let mut chart = Chart::new(3, 5, spacing, padding).unwrap();
    // 100 is far above the declared maximum of 4: it is clamped, not an error
    chart.draw_line(Line { colour: colour(9, 9, 9), data: vec![0, 100, 2], max: 4 }).unwrap();
    let canvas = chart.into_canvas();
    let height = canvas.height();
    // the middle point is marked at the clamped height
    assert_eq!(canvas.get_pixel(2, height - 1 - 4), colour(9, 9, 9));
    // the other points sit at their own values
    assert_eq!(canvas.get_pixel(0, height - 1), colour(9, 9, 9));
    assert_eq!(canvas.get_pixel(4, height - 1 - 2), colour(9, 9, 9));
}

#[test]
fn line_clamps_negative_values_to_the_baseline() {
    let spacing = Spacing { horizontal: 2, vertical: 1 };
    let padding = Padding { above: 0, below: 0, left: 0, right: 1 };
    let mut chart = Chart::new(2, 5, spacing, padding).unwrap();
    chart.draw_line(Line { colour: colour(9, 9, 9), data: vec![-7, 1], max: 4 }).unwrap();
    let canvas = chart.into_canvas();
    let height = canvas.height();
    assert_eq!(canvas.get_pixel(0, height - 1), colour(9, 9, 9));
}

#[test]
fn line_rejects_a_maximum_outside_the_range() {
    let spacing = Spacing { horizontal: 2, vertical: 1 };
    let padding = Padding { above: 0, below: 0, left: 0, right: 1 };
    let mut chart = Chart::new(2, 5, spacing, padding).unwrap();
    assert!(chart.draw_line(Line { colour: colour(9, 9, 9), data: vec![0, 1], max: 5 }).is_err());
    assert!(chart.draw_line(Line { colour: colour(9, 9, 9), data: vec![0, 1], max: -1 }).is_err());
}

#[test]
fn gradient_bars_colour_rows_by_absolute_height() {
    let spacing = Spacing { horizontal: 2, vertical: 2 };
    let mut chart = Chart::new(2, 3, spacing, no_padding()).unwrap();
    let gradient = MultiPointGradient::new(vec![
        GradientPoint::from_rgb(0, [0, 0, 0]),
        GradientPoint::from_rgb(2, [200, 0, 0]),
    ]);
    chart.draw_gradient_bars(GradientBars { gradient, data: vec![2] }).unwrap();
    let canvas = chart.into_canvas();
    let height = canvas.height();
    // the bar is four pixel rows tall; each row takes the gradient's
    // colour at its height, clamped past the last control point
    assert_eq!(canvas.get_pixel(0, height - 1), colour(0, 0, 0));
    assert_eq!(canvas.get_pixel(0, height - 2), colour(100, 0, 0));
    assert_eq!(canvas.get_pixel(0, height - 3), colour(200, 0, 0));
    assert_eq!(canvas.get_pixel(0, height - 4), colour(200, 0, 0));
    assert_eq!(canvas.get_pixel(0, height - 5), colour(0, 0, 0));
}

#[test]
fn horizontal_lines_mark_one_row_per_point() {
    let spacing = Spacing { horizontal: 2, vertical: 2 };
    let mut chart = Chart::new(3, 3, spacing, no_padding()).unwrap();
    chart.draw_horizontal_lines(HorizontalLines { colour: colour(1, 2, 3), data: vec![1, 2] })
        .unwrap();
    let canvas = chart.into_canvas();
    let height = canvas.height();
    // point 0 marks height two, point 1 marks height four
    assert_eq!(canvas.get_pixel(0, height - 1 - 2), colour(1, 2, 3));
    assert_eq!(canvas.get_pixel(1, height - 1 - 2), colour(1, 2, 3));
    assert_eq!(canvas.get_pixel(2, height - 1 - 4), colour(1, 2, 3));
    assert_eq!(canvas.get_pixel(3, height - 1 - 4), colour(1, 2, 3));
    // nothing else on those columns
    assert_eq!(canvas.get_pixel(0, height - 1), colour(0, 0, 0));
    assert_eq!(canvas.get_pixel(2, height - 1 - 2), colour(0, 0, 0));
}

#[test]
fn line_segments_fill_the_span_between_points() {
    let spacing = Spacing { horizontal: 2, vertical: 1 };
    let padding = Padding { above: 0, below: 0, left: 0, right: 1 };
    let mut chart = Chart::new(2, 5, spacing, padding).unwrap();
    chart.draw_line(Line { colour: colour(9, 9, 9), data: vec![0, 4], max: 4 }).unwrap();
    let canvas = chart.into_canvas();
    let height = canvas.height();
    // the column between the two points takes the span between the
    // sampled heights zero and two, rounding half up
    assert_eq!(canvas.get_pixel(1, height - 1), colour(9, 9, 9));
    assert_eq!(canvas.get_pixel(1, height - 1 - 2), colour(9, 9, 9));
    // the final column reaches the second point's height
    assert_eq!(canvas.get_pixel(2, height - 1 - 4), colour(9, 9, 9));
    // above its span the in-between column stays black
    assert_eq!(canvas.get_pixel(1, height - 1 - 4), colour(0, 0, 0));
}

#[test]
fn grid_rows_and_columns_are_grey() {
    let spacing = Spacing { horizontal: 3, vertical: 2 };
    let padding = Padding { above: 2, below: 3, left: 4, right: 2 };
    let mut chart = Chart::new(3, 7, spacing, padding).unwrap();
    let marks = AxisGridLabels {
        vertical_intervals: MarkIntervals::new(2, 2),
        horizontal_intervals: MarkIntervals::new(1, 1),
        vertical_label_range: Range::new(0, 6),
        horizontal_labels: vec![1, 2, 3],
        horizontal_labels_centered: false,
    };
    let font = empty_font();
    chart.draw_axis_grid_labels(marks, &font).unwrap();
    let canvas = chart.into_canvas();
    let height = canvas.height();
    let grey = colour(60, 60, 60);
    // a horizontal grid row at unit two spans the plot width
    assert_eq!(canvas.get_pixel(4, height - 1 - (3 + 2 * 2)), grey);
    assert_eq!(canvas.get_pixel(5, height - 1 - (3 + 2 * 2)), grey);
    // a vertical grid column at the second point spans the grid height
    assert_eq!(canvas.get_pixel(4 + 3, height - 1 - 3), grey);
    assert_eq!(canvas.get_pixel(4 + 3, height - 1 - (3 + 6 * 2)), grey);
    // off the grid and the label bands, the canvas stays black
    assert_eq!(canvas.get_pixel(5, height - 1 - (3 + 1 * 2)), colour(0, 0, 0));
}

fn empty_font() -> RasterFont {
    RasterFont::new(Vec::new(), 5)
}

#[test]
fn text_box_blends_its_glyphs_over_the_margin() {
    let glyphs = vec![Glyph {
        ch: 'a',
        advance: 2,
        left: 0,
        top: 0,
        cols: 1,
        rows: 1,
        alpha: vec![255],
    }];
    let font = RasterFont::new(glyphs, 4);
    let segments = vec![TextSegment::new("a", colour(10, 20, 30))];
    let text_box = TextBox::new(&segments, &font, 6, 1);
    let spacing = Spacing { horizontal: 3, vertical: 1 };
    let padding = Padding { above: 6, below: 1, left: 1, right: 1 };
    let mut chart = Chart::new(3, 2, spacing, padding).unwrap();
    chart.draw_text_box(&text_box, &font).unwrap();
    let canvas = chart.into_canvas();
    // full coverage blends the glyph's colour over black: the colour
    // itself; the box's first line starts where the base margin ends
    assert_eq!(canvas.get_pixel(1, 2), colour(10, 20, 30));
    // beside the glyph the margin stays black
    assert_eq!(canvas.get_pixel(2, 2), colour(0, 0, 0));
}
