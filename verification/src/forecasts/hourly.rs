//! The panels of the hourly forecast image.
//!
//! Each builder takes its measurement series as fixed-point integers
//! (the measured value times 100) and the hour-of-day tick labels, and
//! returns one finished panel canvas. The panels share one set of
//! layout constants: eight pixels between consecutive hours, an hour
//! label under every second point.

use crate::canvas::Canvas;
use crate::chart::{chart_height, chart_width, in_vertical_range};
use crate::drawing::{MarkIntervals, Padding, Spacing};
use crate::error::Error;
use crate::gradient::{GradientPoint, MultiPointGradient, Rgb};
use crate::panel::{
    label_height, layout_ok, max_of, padded_above, padding_small, paint_view,
    panel_chrome_touched, render_panel, series_paint, spec_max, values_small, PaintSeries,
    PaintStyle, PanelSeries, SeriesStyle,
};
use crate::panel::{
    lemma_spec_max_bounds, lemma_spec_min_bounds, min_of, percent_to_fixed, push_segment,
    shift_series, spec_min, units_small, units_to_fixed,
};
use crate::range::{next_mult, next_multiple, prev_mult, previous_and_next_multiple, Range};
use crate::text::{segments_chars, RasterFont, TextSegment};
use vstd::prelude::*;

verus! {

/// The control points of the UV gradient: green through yellow to red
/// as the index climbs past the panel's bottom margin.
pub open spec fn uvi_gradient_points(below: int) -> Seq<GradientPoint> {
    seq![
        GradientPoint { position: below as u32, colour: Rgb { red: 0u8, green: 255u8, blue: 33u8 } },
        GradientPoint {
            position: (below + 45) as u32,
            colour: Rgb { red: 255u8, green: 255u8, blue: 33u8 },
        },
        GradientPoint {
            position: (below + 90) as u32,
            colour: Rgb { red: 255u8, green: 0u8, blue: 33u8 },
        },
    ]
}

/// The control points of the gust gradient: muted green to violet.
pub open spec fn gust_gradient_points(below: int) -> Seq<GradientPoint> {
    seq![
        GradientPoint {
            position: below as u32,
            colour: Rgb { red: 70u8, green: 119u8, blue: 67u8 },
        },
        GradientPoint {
            position: (below + 35) as u32,
            colour: Rgb { red: 118u8, green: 118u8, blue: 62u8 },
        },
        GradientPoint {
            position: (below + 70) as u32,
            colour: Rgb { red: 122u8, green: 67u8, blue: 62u8 },
        },
        GradientPoint {
            position: (below + 105) as u32,
            colour: Rgb { red: 103u8, green: 78u8, blue: 122u8 },
        },
    ]
}

/// The control points of the wind gradient: green through red to
/// purple.
pub open spec fn wind_gradient_points(below: int) -> Seq<GradientPoint> {
    seq![
        GradientPoint { position: below as u32, colour: Rgb { red: 0u8, green: 255u8, blue: 33u8 } },
        GradientPoint {
            position: (below + 35) as u32,
            colour: Rgb { red: 255u8, green: 255u8, blue: 33u8 },
        },
        GradientPoint {
            position: (below + 70) as u32,
            colour: Rgb { red: 255u8, green: 0u8, blue: 33u8 },
        },
        GradientPoint {
            position: (below + 105) as u32,
            colour: Rgb { red: 188u8, green: 66u8, blue: 255u8 },
        },
    ]
}

/// What the UV panel's series paint: clear-sky marks under UV bars.
pub open spec fn uvi_paint(uv: Seq<i32>, clear: Seq<i32>, below: int) -> Seq<PaintSeries> {
    seq![
        PaintSeries {
            style: PaintStyle::Marks(Rgb { red: 118u8, green: 215u8, blue: 234u8 }),
            data: clear,
        },
        PaintSeries { style: PaintStyle::ShadedBars(uvi_gradient_points(below)), data: uv },
    ]
}

/// The UV index panel: a reference mark for the clear-sky index over a
/// gradient bar per hour, green through yellow to red as the index
/// climbs.
pub fn uvi_graph(
    uv: Vec<i32>,
    uv_clear: Vec<i32>,
    times: Vec<u8>,
    padding: Padding,
    font: &RasterFont,
    header_font: &RasterFont,
) -> (r: Result<Canvas, Error>)
    requires
        font.wf(),
        header_font.wf(),
        values_small(uv@),
        values_small(uv_clear@),
        padding_small(padding),
        1 <= uv@.len() <= 0x10_0000,
    ensures
        r is Ok <==> layout_ok(
            uv@.len() as int + 1,
            next_mult(spec_max(uv_clear@, spec_max(uv@, 0)), 1) + 1,
            Spacing { horizontal: 8, vertical: 10 },
            padding,
            "UV index"@ + " (and "@ + "clear sky UVI"@ + ")"@,
            uv@.len() as int * 8,
            header_font,
        ) && uv_clear@.len() == uv@.len() && in_vertical_range(
            uv_clear@,
            next_mult(spec_max(uv_clear@, spec_max(uv@, 0)), 1) + 1,
        ) && in_vertical_range(uv@, next_mult(spec_max(uv_clear@, spec_max(uv@, 0)), 1) + 1),
        r matches Ok(c) ==> c.wf() && c.spec_width() == chart_width(
            uv@.len() as int + 1,
            Spacing { horizontal: 8, vertical: 10 },
            padding,
        ) && c.spec_height() == chart_height(
            next_mult(spec_max(uv_clear@, spec_max(uv@, 0)), 1) + 1,
            Spacing { horizontal: 8, vertical: 10 },
            padding,
        ) + label_height(
            header_font,
            "UV index"@ + " (and "@ + "clear sky UVI"@ + ")"@,
            uv@.len() as int * 8,
        ),
        r matches Ok(c) ==> forall|x: int, yb: int|
            0 <= x < c.spec_width() && 0 <= yb < c.spec_height() && series_paint(
                uvi_paint(uv@, uv_clear@, padding.below as int),
                next_mult(spec_max(uv_clear@, spec_max(uv@, 0)), 1) + 1,
                Spacing { horizontal: 8, vertical: 10 },
                padded_above(
                    padding,
                    header_font,
                    "UV index"@ + " (and "@ + "clear sky UVI"@ + ")"@,
                    uv@.len() as int * 8,
                ),
                x,
                yb,
            ) is Some ==> #[trigger] c.spec_pixel_up(x, yb) == series_paint(
                uvi_paint(uv@, uv_clear@, padding.below as int),
                next_mult(spec_max(uv_clear@, spec_max(uv@, 0)), 1) + 1,
                Spacing { horizontal: 8, vertical: 10 },
                padded_above(
                    padding,
                    header_font,
                    "UV index"@ + " (and "@ + "clear sky UVI"@ + ")"@,
                    uv@.len() as int * 8,
                ),
                x,
                yb,
            )->0,
        r matches Ok(c) ==> forall|x: int, y: int|
            0 <= x < c.spec_width() && 0 <= y < c.spec_height() && !panel_chrome_touched(
                uv@.len() as int + 1,
                next_mult(spec_max(uv_clear@, spec_max(uv@, 0)), 1) + 1,
                Spacing { horizontal: 8, vertical: 10 },
                padding,
                "UV index"@ + " (and "@ + "clear sky UVI"@ + ")"@,
                uv@.len() as int * 8,
                1,
                1,
                1,
                header_font,
                font,
                x,
                y,
            ) && series_paint(
                uvi_paint(uv@, uv_clear@, padding.below as int),
                next_mult(spec_max(uv_clear@, spec_max(uv@, 0)), 1) + 1,
                Spacing { horizontal: 8, vertical: 10 },
                padded_above(
                    padding,
                    header_font,
                    "UV index"@ + " (and "@ + "clear sky UVI"@ + ")"@,
                    uv@.len() as int * 8,
                ),
                x,
                c.spec_height() - 1 - y,
            ) is None ==> #[trigger] c.spec_pixel(x, y) == (Rgb {
                red: 0u8,
                green: 0u8,
                blue: 0u8,
            }),
        r matches Err(e) ==> e is Unfriendly,
{
    let spacing = Spacing { horizontal: 8, vertical: 10 };
    let n = uv.len();
    proof {
        lemma_spec_max_bounds(uv@, 0);
        lemma_spec_max_bounds(uv_clear@, spec_max(uv@, 0));
    }
    let max_uv = max_of(&uv_clear, max_of(&uv, 0));
    let end = next_multiple(max_uv, 1);
    let range = Range::new(0, end);
    let mut points: Vec<GradientPoint> = Vec::new();
    points.push(GradientPoint::from_rgb(padding.below, [0, 255, 33]));
    points.push(GradientPoint::from_rgb(padding.below + 45, [255, 255, 33]));
    points.push(GradientPoint::from_rgb(padding.below + 90, [255, 0, 33]));
    proof {
        assert forall|j: int| 0 <= j < points@.len() - 1 implies #[trigger] points@[j].position
            < points@[j + 1].position by {
            assert(points@[0].position < points@[1].position < points@[2].position);
        }
    }
    let ghost points_view = points@;
    let gradient = MultiPointGradient::new(points);
    proof {
        assert(points_view =~= uvi_gradient_points(padding.below as int));
    }
    let mut label: Vec<TextSegment> = Vec::new();
    push_segment(&mut label, "UV index", Rgb::new(0, 255, 33));
    push_segment(&mut label, " (and ", Rgb::white());
    push_segment(&mut label, "clear sky UVI", Rgb::new(118, 215, 234));
    push_segment(&mut label, ")", Rgb::white());
    let ghost label_chars = "UV index"@ + " (and "@ + "clear sky UVI"@ + ")"@;
    proof {
        assert(segments_chars(label@) =~= label_chars);
    }
    let ghost uv_data = uv@;
    let ghost clear_data = uv_clear@;
    let mut series: Vec<PanelSeries> = Vec::new();
    series.push(PanelSeries { style: SeriesStyle::Marks(Rgb::new(118, 215, 234)), data: uv_clear });
    series.push(PanelSeries { style: SeriesStyle::ShadedBars(gradient), data: uv });
    let r = render_panel(
        n + 1,
        range,
        spacing,
        padding,
        MarkIntervals::new(1, 1),
        MarkIntervals::new(1, 2),
        times,
        true,
        &label,
        (n * 8) as u32,
        series,
        font,
        header_font,
    );
    proof {
        let pc = n as int + 1;
        let rl = range.spec_len();
        let pr = padding.right as int;
        let fit0 = (clear_data.len() + 1 == pc && in_vertical_range(clear_data, rl));
        let fit1 = (uv_data.len() + 1 == pc && in_vertical_range(uv_data, rl));
        assert(series@[0].fits(pc, rl, pr) <==> fit0);
        assert(series@[1].fits(pc, rl, pr) <==> fit1);
        assert((forall|j: int|
            0 <= j < series@.len() ==> (#[trigger] series@[j]).fits(pc, rl, pr)) <==> (fit0
            && fit1)) by {
            if fit0 && fit1 {
                assert forall|j: int| 0 <= j < series@.len() implies (#[trigger] series@[j]).fits(
                    pc,
                    rl,
                    pr,
                ) by {
                    assert(j == 0 || j == 1);
                }
            }
        }
        assert(paint_view(series@) =~= uvi_paint(uv_data, clear_data, padding.below as int)) by {
            assert(paint_view(series@).len() == 2);
            assert(paint_view(series@)[0] == PaintSeries {
                style: PaintStyle::Marks(Rgb { red: 118u8, green: 215u8, blue: 234u8 }),
                data: clear_data,
            });
            assert(paint_view(series@)[1] == PaintSeries {
                style: PaintStyle::ShadedBars(uvi_gradient_points(padding.below as int)),
                data: uv_data,
            });
        }
    }
    r
}

/// What the temperature panel's series paint: apparent, wet-bulb and
/// dry-bulb lines, each shifted to the padded range's start.
pub open spec fn temp_paint(temp: Seq<i32>, wet: Seq<i32>, apparent: Seq<i32>) -> Seq<PaintSeries> {
    let start = prev_mult(spec_min(apparent, spec_min(wet, spec_min(temp, temp[0] as int))), 4);
    seq![
        PaintSeries {
            style: PaintStyle::Line(Rgb { red: 0u8, green: 255u8, blue: 33u8 }),
            data: apparent.map_values(|v: i32| (v - start) as i32),
        },
        PaintSeries {
            style: PaintStyle::Line(Rgb { red: 0u8, green: 148u8, blue: 255u8 }),
            data: wet.map_values(|v: i32| (v - start) as i32),
        },
        PaintSeries {
            style: PaintStyle::Line(Rgb { red: 255u8, green: 0u8, blue: 0u8 }),
            data: temp.map_values(|v: i32| (v - start) as i32),
        },
    ]
}

/// What the relative-humidity panel's series paint: one line of the
/// percentages in fixed-point form.
pub open spec fn humidity_paint(humidity: Seq<i32>) -> Seq<PaintSeries> {
    seq![
        PaintSeries {
            style: PaintStyle::Line(Rgb { red: 0u8, green: 148u8, blue: 255u8 }),
            data: humidity.map_values(|v: i32| (v * 100) as i32),
        },
    ]
}

/// What the probability panel's series paint: one bar per point at the
/// probability in fixed-point form.
pub open spec fn pop_paint(probability: Seq<u8>) -> Seq<PaintSeries> {
    seq![
        PaintSeries {
            style: PaintStyle::Bars(Rgb { red: 0u8, green: 180u8, blue: 255u8 }),
            data: probability.map_values(|v: u8| (v * 100) as i32),
        },
    ]
}

/// What the precipitation panel's series paint: one bar per point.
pub open spec fn precipitation_paint(precipitation: Seq<i32>) -> Seq<PaintSeries> {
    seq![
        PaintSeries {
            style: PaintStyle::Bars(Rgb { red: 0u8, green: 148u8, blue: 255u8 }),
            data: precipitation,
        },
    ]
}

/// What the wind panel's series paint: gust bars under wind bars, both
/// shaded by the same absolute heights.
pub open spec fn wind_paint(wind: Seq<i32>, gusts: Seq<i32>, below: int) -> Seq<PaintSeries> {
    seq![
        PaintSeries { style: PaintStyle::ShadedBars(gust_gradient_points(below)), data: gusts },
        PaintSeries { style: PaintStyle::ShadedBars(wind_gradient_points(below)), data: wind },
    ]
}

/// The temperature panel: dry-bulb, wet-bulb and apparent temperature
/// lines over a range padded outward to multiples of four.
pub fn temp_graph(
    temp: Vec<i32>,
    wet_bulb: Vec<i32>,
    apparent: Vec<i32>,
    times: Vec<u8>,
    padding: Padding,
    font: &RasterFont,
    header_font: &RasterFont,
) -> (r: Result<Canvas, Error>)
    requires
        font.wf(),
        header_font.wf(),
        values_small(temp@),
        values_small(wet_bulb@),
        values_small(apparent@),
        padding_small(padding),
        1 <= temp@.len() <= 0x10_0000,
    ensures
        r is Ok <==> layout_ok(
            temp@.len() as int,
            temp_range_len(temp@, wet_bulb@, apparent@),
            Spacing { horizontal: 8, vertical: 3 },
            padding,
            "Dry bulb"@ + ", "@ + "wet bulb"@ + " and "@ + "apparent"@ + " temperatures (°C)"@,
            (temp@.len() as int - 1) * 8,
            header_font,
        ) && wet_bulb@.len() == temp@.len() && apparent@.len() == temp@.len() && 1
            <= padding.right,
        r matches Ok(c) ==> c.wf() && c.spec_width() == chart_width(
            temp@.len() as int,
            Spacing { horizontal: 8, vertical: 3 },
            padding,
        ) && c.spec_height() == chart_height(
            temp_range_len(temp@, wet_bulb@, apparent@),
            Spacing { horizontal: 8, vertical: 3 },
            padding,
        ) + label_height(
            header_font,
            "Dry bulb"@ + ", "@ + "wet bulb"@ + " and "@ + "apparent"@ + " temperatures (°C)"@,
            (temp@.len() as int - 1) * 8,
        ),
        r matches Ok(c) ==> forall|x: int, yb: int|
            0 <= x < c.spec_width() && 0 <= yb < c.spec_height() && series_paint(
                temp_paint(temp@, wet_bulb@, apparent@),
                temp_range_len(temp@, wet_bulb@, apparent@),
                Spacing { horizontal: 8, vertical: 3 },
                padded_above(
                    padding,
                    header_font,
                    "Dry bulb"@ + ", "@ + "wet bulb"@ + " and "@ + "apparent"@ + " temperatures (°C)"@,
                    (temp@.len() as int - 1) * 8,
                ),
                x,
                yb,
            ) is Some ==> #[trigger] c.spec_pixel_up(x, yb) == series_paint(
                temp_paint(temp@, wet_bulb@, apparent@),
                temp_range_len(temp@, wet_bulb@, apparent@),
                Spacing { horizontal: 8, vertical: 3 },
                padded_above(
                    padding,
                    header_font,
                    "Dry bulb"@ + ", "@ + "wet bulb"@ + " and "@ + "apparent"@ + " temperatures (°C)"@,
                    (temp@.len() as int - 1) * 8,
                ),
                x,
                yb,
            )->0,
        r matches Ok(c) ==> forall|x: int, y: int|
            0 <= x < c.spec_width() && 0 <= y < c.spec_height() && !panel_chrome_touched(
                temp@.len() as int,
                temp_range_len(temp@, wet_bulb@, apparent@),
                Spacing { horizontal: 8, vertical: 3 },
                padding,
                "Dry bulb"@ + ", "@ + "wet bulb"@ + " and "@ + "apparent"@ + " temperatures (°C)"@,
                (temp@.len() as int - 1) * 8,
                2,
                1,
                4,
                header_font,
                font,
                x,
                y,
            ) && series_paint(
                temp_paint(temp@, wet_bulb@, apparent@),
                temp_range_len(temp@, wet_bulb@, apparent@),
                Spacing { horizontal: 8, vertical: 3 },
                padded_above(
                    padding,
                    header_font,
                    "Dry bulb"@ + ", "@ + "wet bulb"@ + " and "@ + "apparent"@ + " temperatures (°C)"@,
                    (temp@.len() as int - 1) * 8,
                ),
                x,
                c.spec_height() - 1 - y,
            ) is None ==> #[trigger] c.spec_pixel(x, y) == (Rgb {
                red: 0u8,
                green: 0u8,
                blue: 0u8,
            }),
        r matches Err(e) ==> e is Unfriendly,
{
    let spacing = Spacing { horizontal: 8, vertical: 3 };
    let n = temp.len();
    let floor = temp[0];
    proof {
        lemma_spec_min_bounds(temp@, floor as int);
        lemma_spec_min_bounds(wet_bulb@, spec_min(temp@, floor as int));
        lemma_spec_min_bounds(apparent@, spec_min(wet_bulb@, spec_min(temp@, floor as int)));
        lemma_spec_max_bounds(temp@, floor as int);
        lemma_spec_max_bounds(wet_bulb@, spec_max(temp@, floor as int));
        lemma_spec_max_bounds(apparent@, spec_max(wet_bulb@, spec_max(temp@, floor as int)));
    }
    let lo = min_of(&apparent, min_of(&wet_bulb, min_of(&temp, floor)));
    let hi = max_of(&apparent, max_of(&wet_bulb, max_of(&temp, floor)));
    let range = previous_and_next_multiple(Range::new(lo, hi), 4);
    let start = range.start();
    let shifted_temp = shift_series(&temp, start);
    let shifted_wet = shift_series(&wet_bulb, start);
    let shifted_apparent = shift_series(&apparent, start);
    let mut label: Vec<TextSegment> = Vec::new();
    push_segment(&mut label, "Dry bulb", Rgb::new(255, 0, 0));
    push_segment(&mut label, ", ", Rgb::white());
    push_segment(&mut label, "wet bulb", Rgb::new(0, 148, 255));
    push_segment(&mut label, " and ", Rgb::white());
    push_segment(&mut label, "apparent", Rgb::new(0, 255, 33));
    push_segment(&mut label, " temperatures (°C)", Rgb::white());
    proof {
        assert(segments_chars(label@) =~= "Dry bulb"@ + ", "@ + "wet bulb"@ + " and "@
            + "apparent"@ + " temperatures (°C)"@);
    }
    let ghost d0 = shifted_apparent@;
    let ghost d1 = shifted_wet@;
    let ghost d2 = shifted_temp@;
    let mut series: Vec<PanelSeries> = Vec::new();
    series.push(PanelSeries { style: SeriesStyle::Line(Rgb::new(0, 255, 33)), data: shifted_apparent });
    series.push(PanelSeries { style: SeriesStyle::Line(Rgb::new(0, 148, 255)), data: shifted_wet });
    series.push(PanelSeries { style: SeriesStyle::Line(Rgb::new(255, 0, 0)), data: shifted_temp });
    let r = render_panel(
        n,
        range,
        spacing,
        padding,
        MarkIntervals::new(2, 4),
        MarkIntervals::new(1, 2),
        times,
        false,
        &label,
        ((n - 1) * 8) as u32,
        series,
        font,
        header_font,
    );
    proof {
        let pc = n as int;
        let rl = range.spec_len();
        let pr = padding.right as int;
        assert(rl == temp_range_len(temp@, wet_bulb@, apparent@));
        let fit0 = (d0.len() == pc && 1 <= pr);
        let fit1 = (d1.len() == pc && 1 <= pr);
        let fit2 = (d2.len() == pc && 1 <= pr);
        assert(series@[0].fits(pc, rl, pr) <==> fit0);
        assert(series@[1].fits(pc, rl, pr) <==> fit1);
        assert(series@[2].fits(pc, rl, pr) <==> fit2);
        assert((forall|j: int|
            0 <= j < series@.len() ==> (#[trigger] series@[j]).fits(pc, rl, pr)) <==> (fit0 && fit1
            && fit2)) by {
            if fit0 && fit1 && fit2 {
                assert forall|j: int| 0 <= j < series@.len() implies (#[trigger] series@[j]).fits(
                    pc,
                    rl,
                    pr,
                ) by {
                    assert(j == 0 || j == 1 || j == 2);
                }
            }
        }
        let ghost shift = prev_mult(
            spec_min(apparent@, spec_min(wet_bulb@, spec_min(temp@, temp@[0] as int))),
            4,
        );
        assert(start as int == shift);
        assert(d0 =~= apparent@.map_values(|v: i32| (v - shift) as i32)) by {
            assert forall|j: int| 0 <= j < apparent@.len() implies d0[j] == apparent@.map_values(
                |v: i32| (v - shift) as i32,
            )[j] by {
                assert(-0x1000_0000 <= apparent@[j] <= 0x1000_0000);
            }
        }
        assert(d1 =~= wet_bulb@.map_values(|v: i32| (v - shift) as i32)) by {
            assert forall|j: int| 0 <= j < wet_bulb@.len() implies d1[j] == wet_bulb@.map_values(
                |v: i32| (v - shift) as i32,
            )[j] by {
                assert(-0x1000_0000 <= wet_bulb@[j] <= 0x1000_0000);
            }
        }
        assert(d2 =~= temp@.map_values(|v: i32| (v - shift) as i32)) by {
            assert forall|j: int| 0 <= j < temp@.len() implies d2[j] == temp@.map_values(
                |v: i32| (v - shift) as i32,
            )[j] by {
                assert(-0x1000_0000 <= temp@[j] <= 0x1000_0000);
            }
        }
        assert(paint_view(series@) =~= temp_paint(temp@, wet_bulb@, apparent@)) by {
            assert(paint_view(series@).len() == 3);
            assert(paint_view(series@)[0] == PaintSeries {
                style: PaintStyle::Line(Rgb { red: 0u8, green: 255u8, blue: 33u8 }),
                data: d0,
            });
            assert(paint_view(series@)[1] == PaintSeries {
                style: PaintStyle::Line(Rgb { red: 0u8, green: 148u8, blue: 255u8 }),
                data: d1,
            });
            assert(paint_view(series@)[2] == PaintSeries {
                style: PaintStyle::Line(Rgb { red: 255u8, green: 0u8, blue: 0u8 }),
                data: d2,
            });
        }
    }
    r
}

/// The number of axis units of the hourly temperature panel's range:
/// the extent of all three series, padded outward to multiples of four
/// and kept non-degenerate.
pub open spec fn temp_range_len(temp: Seq<i32>, wet_bulb: Seq<i32>, apparent: Seq<i32>) -> int
    recommends
        temp.len() >= 1,
{
    let floor = temp[0] as int;
    let lo = prev_mult(spec_min(apparent, spec_min(wet_bulb, spec_min(temp, floor))), 4);
    let nx = next_mult(spec_max(apparent, spec_max(wet_bulb, spec_max(temp, floor))), 4);
    (if lo == nx {
        lo + 4
    } else {
        nx
    }) - lo + 1
}

/// The relative-humidity panel: one line on a fixed zero-to-hundred
/// percent range.
pub fn humidity_graph(
    humidity: Vec<i32>,
    times: Vec<u8>,
    padding: Padding,
    font: &RasterFont,
    header_font: &RasterFont,
) -> (r: Result<Canvas, Error>)
    requires
        font.wf(),
        header_font.wf(),
        units_small(humidity@),
        padding_small(padding),
        1 <= humidity@.len() <= 0x10_0000,
    ensures
        r is Ok <==> layout_ok(
            humidity@.len() as int,
            10001,
            Spacing { horizontal: 8, vertical: 1 },
            padding,
            "Relative humidity"@,
            (humidity@.len() as int - 1) * 8,
            header_font,
        ) && 1 <= padding.right,
        r matches Ok(c) ==> c.wf() && c.spec_width() == chart_width(
            humidity@.len() as int,
            Spacing { horizontal: 8, vertical: 1 },
            padding,
        ) && c.spec_height() == chart_height(
            10001,
            Spacing { horizontal: 8, vertical: 1 },
            padding,
        ) + label_height(
            header_font,
            "Relative humidity"@,
            (humidity@.len() as int - 1) * 8,
        ),
        r matches Ok(c) ==> forall|x: int, yb: int|
            0 <= x < c.spec_width() && 0 <= yb < c.spec_height() && series_paint(
                humidity_paint(humidity@),
                10001,
                Spacing { horizontal: 8, vertical: 1 },
                padded_above(
                    padding,
                    header_font,
                    "Relative humidity"@,
                    (humidity@.len() as int - 1) * 8,
                ),
                x,
                yb,
            ) is Some ==> #[trigger] c.spec_pixel_up(x, yb) == series_paint(
                humidity_paint(humidity@),
                10001,
                Spacing { horizontal: 8, vertical: 1 },
                padded_above(
                    padding,
                    header_font,
                    "Relative humidity"@,
                    (humidity@.len() as int - 1) * 8,
                ),
                x,
                yb,
            )->0,
        r matches Ok(c) ==> forall|x: int, y: int|
            0 <= x < c.spec_width() && 0 <= y < c.spec_height() && !panel_chrome_touched(
                humidity@.len() as int,
                10001,
                Spacing { horizontal: 8, vertical: 1 },
                padding,
                "Relative humidity"@,
                (humidity@.len() as int - 1) * 8,
                10,
                1,
                20,
                header_font,
                font,
                x,
                y,
            ) && series_paint(
                humidity_paint(humidity@),
                10001,
                Spacing { horizontal: 8, vertical: 1 },
                padded_above(
                    padding,
                    header_font,
                    "Relative humidity"@,
                    (humidity@.len() as int - 1) * 8,
                ),
                x,
                c.spec_height() - 1 - y,
            ) is None ==> #[trigger] c.spec_pixel(x, y) == (Rgb {
                red: 0u8,
                green: 0u8,
                blue: 0u8,
            }),
        r matches Err(e) ==> e is Unfriendly,
{
    let spacing = Spacing { horizontal: 8, vertical: 1 };
    let n = humidity.len();
    let range = Range::new(0, 10000);
    let scaled = units_to_fixed(&humidity);
    let mut label: Vec<TextSegment> = Vec::new();
    push_segment(&mut label, "Relative humidity", Rgb::new(0, 148, 255));
    proof {
        assert(segments_chars(label@) =~= "Relative humidity"@);
    }
    let ghost d0 = scaled@;
    let mut series: Vec<PanelSeries> = Vec::new();
    series.push(PanelSeries { style: SeriesStyle::Line(Rgb::new(0, 148, 255)), data: scaled });
    let r = render_panel(
        n,
        range,
        spacing,
        padding,
        MarkIntervals::new(10, 20),
        MarkIntervals::new(1, 2),
        times,
        false,
        &label,
        ((n - 1) * 8) as u32,
        series,
        font,
        header_font,
    );
    proof {
        let pc = n as int;
        let rl = range.spec_len();
        let pr = padding.right as int;
        let fit0 = (d0.len() == pc && 1 <= pr);
        assert(series@[0].fits(pc, rl, pr) <==> fit0);
        assert((forall|j: int|
            0 <= j < series@.len() ==> (#[trigger] series@[j]).fits(pc, rl, pr)) <==> fit0) by {
            if fit0 {
                assert forall|j: int| 0 <= j < series@.len() implies (#[trigger] series@[j]).fits(
                    pc,
                    rl,
                    pr,
                ) by {
                    assert(j == 0);
                }
            }
        }
        assert(d0 =~= humidity@.map_values(|v: i32| (v * 100) as i32)) by {
            assert forall|j: int| 0 <= j < humidity@.len() implies d0[j] == humidity@.map_values(
                |v: i32| (v * 100) as i32,
            )[j] by {
                assert(-0x100_0000 <= humidity@[j] <= 0x100_0000);
            }
        }
        assert(paint_view(series@) =~= humidity_paint(humidity@)) by {
            assert(paint_view(series@).len() == 1);
            assert(paint_view(series@)[0] == PaintSeries {
                style: PaintStyle::Line(Rgb { red: 0u8, green: 148u8, blue: 255u8 }),
                data: d0,
            });
        }
    }
    r
}

/// The precipitation-probability panel: one solid bar per hour on a
/// fixed zero-to-hundred percent range.
pub fn pop_graph(
    probability: Vec<u8>,
    times: Vec<u8>,
    padding: Padding,
    font: &RasterFont,
    header_font: &RasterFont,
) -> (r: Result<Canvas, Error>)
    requires
        font.wf(),
        header_font.wf(),
        padding_small(padding),
        1 <= probability@.len() <= 0x10_0000,
    ensures
        r is Ok <==> layout_ok(
            probability@.len() as int + 1,
            10001,
            Spacing { horizontal: 8, vertical: 1 },
            padding,
            "Probability of "@ + "precipitation"@,
            probability@.len() as int * 8,
            header_font,
        ) && (forall|k: int| 0 <= k < probability@.len() ==> #[trigger] probability@[k] <= 100),
        r matches Ok(c) ==> c.wf() && c.spec_width() == chart_width(
            probability@.len() as int + 1,
            Spacing { horizontal: 8, vertical: 1 },
            padding,
        ) && c.spec_height() == chart_height(
            10001,
            Spacing { horizontal: 8, vertical: 1 },
            padding,
        ) + label_height(
            header_font,
            "Probability of "@ + "precipitation"@,
            probability@.len() as int * 8,
        ),
        r matches Ok(c) ==> forall|x: int, yb: int|
            0 <= x < c.spec_width() && 0 <= yb < c.spec_height() && series_paint(
                pop_paint(probability@),
                10001,
                Spacing { horizontal: 8, vertical: 1 },
                padded_above(
                    padding,
                    header_font,
                    "Probability of "@ + "precipitation"@,
                    probability@.len() as int * 8,
                ),
                x,
                yb,
            ) is Some ==> #[trigger] c.spec_pixel_up(x, yb) == series_paint(
                pop_paint(probability@),
                10001,
                Spacing { horizontal: 8, vertical: 1 },
                padded_above(
                    padding,
                    header_font,
                    "Probability of "@ + "precipitation"@,
                    probability@.len() as int * 8,
                ),
                x,
                yb,
            )->0,
        r matches Ok(c) ==> forall|x: int, y: int|
            0 <= x < c.spec_width() && 0 <= y < c.spec_height() && !panel_chrome_touched(
                probability@.len() as int + 1,
                10001,
                Spacing { horizontal: 8, vertical: 1 },
                padding,
                "Probability of "@ + "precipitation"@,
                probability@.len() as int * 8,
                10,
                1,
                20,
                header_font,
                font,
                x,
                y,
            ) && series_paint(
                pop_paint(probability@),
                10001,
                Spacing { horizontal: 8, vertical: 1 },
                padded_above(
                    padding,
                    header_font,
                    "Probability of "@ + "precipitation"@,
                    probability@.len() as int * 8,
                ),
                x,
                c.spec_height() - 1 - y,
            ) is None ==> #[trigger] c.spec_pixel(x, y) == (Rgb {
                red: 0u8,
                green: 0u8,
                blue: 0u8,
            }),
        r matches Err(e) ==> e is Unfriendly,
{
    let spacing = Spacing { horizontal: 8, vertical: 1 };
    let n = probability.len();
    let range = Range::new(0, 10000);
    let scaled = percent_to_fixed(&probability);
    let mut label: Vec<TextSegment> = Vec::new();
    push_segment(&mut label, "Probability of ", Rgb::white());
    push_segment(&mut label, "precipitation", Rgb::new(0, 180, 255));
    proof {
        assert(segments_chars(label@) =~= "Probability of "@ + "precipitation"@);
    }
    let ghost d0 = scaled@;
    let mut series: Vec<PanelSeries> = Vec::new();
    series.push(PanelSeries { style: SeriesStyle::Bars(Rgb::new(0, 180, 255)), data: scaled });
    let r = render_panel(
        n + 1,
        range,
        spacing,
        padding,
        MarkIntervals::new(10, 20),
        MarkIntervals::new(1, 2),
        times,
        true,
        &label,
        (n * 8) as u32,
        series,
        font,
        header_font,
    );
    proof {
        let pc = n as int + 1;
        let rl = range.spec_len();
        let pr = padding.right as int;
        let fit0 = (d0.len() + 1 == pc && in_vertical_range(d0, rl));
        assert(series@[0].fits(pc, rl, pr) <==> fit0);
        assert(in_vertical_range(d0, rl) <==> (forall|k: int|
            0 <= k < probability@.len() ==> #[trigger] probability@[k] <= 100)) by {
            if forall|k: int| 0 <= k < probability@.len() ==> #[trigger] probability@[k] <= 100 {
                assert forall|k: int| 0 <= k < d0.len() implies 0 <= #[trigger] d0[k] <= rl - 1 by {
                    assert(probability@[k] <= 100);
                }
            }
            if in_vertical_range(d0, rl) {
                assert forall|k: int|
                    0 <= k < probability@.len() implies #[trigger] probability@[k] <= 100 by {
                    assert(0 <= d0[k] <= rl - 1);
                }
            }
        }
        assert((forall|j: int|
            0 <= j < series@.len() ==> (#[trigger] series@[j]).fits(pc, rl, pr)) <==> fit0) by {
            if fit0 {
                assert forall|j: int| 0 <= j < series@.len() implies (#[trigger] series@[j]).fits(
                    pc,
                    rl,
                    pr,
                ) by {
                    assert(j == 0);
                }
            }
        }
        assert(d0 =~= probability@.map_values(|v: u8| (v * 100) as i32));
        assert(paint_view(series@) =~= pop_paint(probability@)) by {
            assert(paint_view(series@).len() == 1);
            assert(paint_view(series@)[0] == PaintSeries {
                style: PaintStyle::Bars(Rgb { red: 0u8, green: 180u8, blue: 255u8 }),
                data: d0,
            });
        }
    }
    r
}

/// The precipitation-amount panel: one solid bar per hour, the range
/// padded up to the next whole millimetre times one hundred.
pub fn precipitation_graph(
    precipitation: Vec<i32>,
    times: Vec<u8>,
    padding: Padding,
    font: &RasterFont,
    header_font: &RasterFont,
) -> (r: Result<Canvas, Error>)
    requires
        font.wf(),
        header_font.wf(),
        values_small(precipitation@),
        padding_small(padding),
        1 <= precipitation@.len() <= 0x10_0000,
    ensures
        r is Ok <==> layout_ok(
            precipitation@.len() as int + 1,
            next_mult(spec_max(precipitation@, 0), 1) + 1,
            Spacing { horizontal: 8, vertical: 16 },
            padding,
            "Amount of "@ + "precipitation"@ + " (mm)"@,
            precipitation@.len() as int * 8,
            header_font,
        ) && in_vertical_range(precipitation@, next_mult(spec_max(precipitation@, 0), 1) + 1),
        r matches Ok(c) ==> c.wf() && c.spec_width() == chart_width(
            precipitation@.len() as int + 1,
            Spacing { horizontal: 8, vertical: 16 },
            padding,
        ) && c.spec_height() == chart_height(
            next_mult(spec_max(precipitation@, 0), 1) + 1,
            Spacing { horizontal: 8, vertical: 16 },
            padding,
        ) + label_height(
            header_font,
            "Amount of "@ + "precipitation"@ + " (mm)"@,
            precipitation@.len() as int * 8,
        ),
        r matches Ok(c) ==> forall|x: int, yb: int|
            0 <= x < c.spec_width() && 0 <= yb < c.spec_height() && series_paint(
                precipitation_paint(precipitation@),
                next_mult(spec_max(precipitation@, 0), 1) + 1,
                Spacing { horizontal: 8, vertical: 16 },
                padded_above(
                    padding,
                    header_font,
                    "Amount of "@ + "precipitation"@ + " (mm)"@,
                    precipitation@.len() as int * 8,
                ),
                x,
                yb,
            ) is Some ==> #[trigger] c.spec_pixel_up(x, yb) == series_paint(
                precipitation_paint(precipitation@),
                next_mult(spec_max(precipitation@, 0), 1) + 1,
                Spacing { horizontal: 8, vertical: 16 },
                padded_above(
                    padding,
                    header_font,
                    "Amount of "@ + "precipitation"@ + " (mm)"@,
                    precipitation@.len() as int * 8,
                ),
                x,
                yb,
            )->0,
        r matches Ok(c) ==> forall|x: int, y: int|
            0 <= x < c.spec_width() && 0 <= y < c.spec_height() && !panel_chrome_touched(
                precipitation@.len() as int + 1,
                next_mult(spec_max(precipitation@, 0), 1) + 1,
                Spacing { horizontal: 8, vertical: 16 },
                padding,
                "Amount of "@ + "precipitation"@ + " (mm)"@,
                precipitation@.len() as int * 8,
                1,
                1,
                1,
                header_font,
                font,
                x,
                y,
            ) && series_paint(
                precipitation_paint(precipitation@),
                next_mult(spec_max(precipitation@, 0), 1) + 1,
                Spacing { horizontal: 8, vertical: 16 },
                padded_above(
                    padding,
                    header_font,
                    "Amount of "@ + "precipitation"@ + " (mm)"@,
                    precipitation@.len() as int * 8,
                ),
                x,
                c.spec_height() - 1 - y,
            ) is None ==> #[trigger] c.spec_pixel(x, y) == (Rgb {
                red: 0u8,
                green: 0u8,
                blue: 0u8,
            }),
        r matches Err(e) ==> e is Unfriendly,
{
    let spacing = Spacing { horizontal: 8, vertical: 16 };
    let n = precipitation.len();
    proof {
        lemma_spec_max_bounds(precipitation@, 0);
    }
    let max_precipitation = max_of(&precipitation, 0);
    let end = next_multiple(max_precipitation, 1);
    let range = Range::new(0, end);
    let mut label: Vec<TextSegment> = Vec::new();
    push_segment(&mut label, "Amount of ", Rgb::white());
    push_segment(&mut label, "precipitation", Rgb::new(0, 148, 255));
    push_segment(&mut label, " (mm)", Rgb::white());
    proof {
        assert(segments_chars(label@) =~= "Amount of "@ + "precipitation"@ + " (mm)"@);
    }
    let ghost d0 = precipitation@;
    let mut series: Vec<PanelSeries> = Vec::new();
    series.push(PanelSeries { style: SeriesStyle::Bars(Rgb::new(0, 148, 255)), data: precipitation });
    let r = render_panel(
        n + 1,
        range,
        spacing,
        padding,
        MarkIntervals::new(1, 1),
        MarkIntervals::new(1, 2),
        times,
        false,
        &label,
        (n * 8) as u32,
        series,
        font,
        header_font,
    );
    proof {
        let pc = n as int + 1;
        let rl = range.spec_len();
        let pr = padding.right as int;
        let fit0 = (d0.len() + 1 == pc && in_vertical_range(d0, rl));
        assert(series@[0].fits(pc, rl, pr) <==> fit0);
        assert((forall|j: int|
            0 <= j < series@.len() ==> (#[trigger] series@[j]).fits(pc, rl, pr)) <==> fit0) by {
            if fit0 {
                assert forall|j: int| 0 <= j < series@.len() implies (#[trigger] series@[j]).fits(
                    pc,
                    rl,
                    pr,
                ) by {
                    assert(j == 0);
                }
            }
        }
        assert(paint_view(series@) =~= precipitation_paint(precipitation@)) by {
            assert(paint_view(series@).len() == 1);
            assert(paint_view(series@)[0] == PaintSeries {
                style: PaintStyle::Bars(Rgb { red: 0u8, green: 148u8, blue: 255u8 }),
                data: d0,
            });
        }
    }
    r
}

/// The wind panel: gust-speed bars behind wind-speed bars, both shaded
/// by the same absolute pixel heights so their colour bands align, on a
/// range padded up to multiples of five.
pub fn wind_graph(
    wind: Vec<i32>,
    gusts: Vec<i32>,
    times: Vec<u8>,
    padding: Padding,
    font: &RasterFont,
    header_font: &RasterFont,
) -> (r: Result<Canvas, Error>)
    requires
        font.wf(),
        header_font.wf(),
        values_small(wind@),
        values_small(gusts@),
        padding_small(padding),
        1 <= wind@.len() <= 0x10_0000,
    ensures
        r is Ok <==> layout_ok(
            wind@.len() as int + 1,
            next_mult(spec_max(gusts@, spec_max(wind@, 0)), 5) + 1,
            Spacing { horizontal: 8, vertical: 5 },
            padding,
            "Wind"@ + " and "@ + "gust"@ + " speed (m/s)"@,
            wind@.len() as int * 8,
            header_font,
        ) && gusts@.len() == wind@.len() && in_vertical_range(
            gusts@,
            next_mult(spec_max(gusts@, spec_max(wind@, 0)), 5) + 1,
        ) && in_vertical_range(wind@, next_mult(spec_max(gusts@, spec_max(wind@, 0)), 5) + 1),
        r matches Ok(c) ==> c.wf() && c.spec_width() == chart_width(
            wind@.len() as int + 1,
            Spacing { horizontal: 8, vertical: 5 },
            padding,
        ) && c.spec_height() == chart_height(
            next_mult(spec_max(gusts@, spec_max(wind@, 0)), 5) + 1,
            Spacing { horizontal: 8, vertical: 5 },
            padding,
        ) + label_height(
            header_font,
            "Wind"@ + " and "@ + "gust"@ + " speed (m/s)"@,
            wind@.len() as int * 8,
        ),
        r matches Ok(c) ==> forall|x: int, yb: int|
            0 <= x < c.spec_width() && 0 <= yb < c.spec_height() && series_paint(
                wind_paint(wind@, gusts@, padding.below as int),
                next_mult(spec_max(gusts@, spec_max(wind@, 0)), 5) + 1,
                Spacing { horizontal: 8, vertical: 5 },
                padded_above(
                    padding,
                    header_font,
                    "Wind"@ + " and "@ + "gust"@ + " speed (m/s)"@,
                    wind@.len() as int * 8,
                ),
                x,
                yb,
            ) is Some ==> #[trigger] c.spec_pixel_up(x, yb) == series_paint(
                wind_paint(wind@, gusts@, padding.below as int),
                next_mult(spec_max(gusts@, spec_max(wind@, 0)), 5) + 1,
                Spacing { horizontal: 8, vertical: 5 },
                padded_above(
                    padding,
                    header_font,
                    "Wind"@ + " and "@ + "gust"@ + " speed (m/s)"@,
                    wind@.len() as int * 8,
                ),
                x,
                yb,
            )->0,
        r matches Ok(c) ==> forall|x: int, y: int|
            0 <= x < c.spec_width() && 0 <= y < c.spec_height() && !panel_chrome_touched(
                wind@.len() as int + 1,
                next_mult(spec_max(gusts@, spec_max(wind@, 0)), 5) + 1,
                Spacing { horizontal: 8, vertical: 5 },
                padding,
                "Wind"@ + " and "@ + "gust"@ + " speed (m/s)"@,
                wind@.len() as int * 8,
                5,
                1,
                5,
                header_font,
                font,
                x,
                y,
            ) && series_paint(
                wind_paint(wind@, gusts@, padding.below as int),
                next_mult(spec_max(gusts@, spec_max(wind@, 0)), 5) + 1,
                Spacing { horizontal: 8, vertical: 5 },
                padded_above(
                    padding,
                    header_font,
                    "Wind"@ + " and "@ + "gust"@ + " speed (m/s)"@,
                    wind@.len() as int * 8,
                ),
                x,
                c.spec_height() - 1 - y,
            ) is None ==> #[trigger] c.spec_pixel(x, y) == (Rgb {
                red: 0u8,
                green: 0u8,
                blue: 0u8,
            }),
        r matches Err(e) ==> e is Unfriendly,
{
    let spacing = Spacing { horizontal: 8, vertical: 5 };
    let n = wind.len();
    proof {
        lemma_spec_max_bounds(wind@, 0);
        lemma_spec_max_bounds(gusts@, spec_max(wind@, 0));
    }
    let max_speed = max_of(&gusts, max_of(&wind, 0));
    let end = next_multiple(max_speed, 5);
    let range = Range::new(0, end);
    let mut gust_points: Vec<GradientPoint> = Vec::new();
    gust_points.push(GradientPoint::from_rgb(padding.below, [70, 119, 67]));
    gust_points.push(GradientPoint::from_rgb(padding.below + 35, [118, 118, 62]));
    gust_points.push(GradientPoint::from_rgb(padding.below + 70, [122, 67, 62]));
    gust_points.push(GradientPoint::from_rgb(padding.below + 105, [103, 78, 122]));
    let mut wind_points: Vec<GradientPoint> = Vec::new();
    wind_points.push(GradientPoint::from_rgb(padding.below, [0, 255, 33]));
    wind_points.push(GradientPoint::from_rgb(padding.below + 35, [255, 255, 33]));
    wind_points.push(GradientPoint::from_rgb(padding.below + 70, [255, 0, 33]));
    wind_points.push(GradientPoint::from_rgb(padding.below + 105, [188, 66, 255]));
    proof {
        assert forall|j: int|
            0 <= j < gust_points@.len() - 1 implies #[trigger] gust_points@[j].position
            < gust_points@[j + 1].position by {
            assert(gust_points@[0].position < gust_points@[1].position < gust_points@[2].position
                < gust_points@[3].position);
        }
        assert forall|j: int|
            0 <= j < wind_points@.len() - 1 implies #[trigger] wind_points@[j].position
            < wind_points@[j + 1].position by {
            assert(wind_points@[0].position < wind_points@[1].position < wind_points@[2].position
                < wind_points@[3].position);
        }
    }
    let ghost gust_points_view = gust_points@;
    let ghost wind_points_view = wind_points@;
    let gust_gradient = MultiPointGradient::new(gust_points);
    let wind_gradient = MultiPointGradient::new(wind_points);
    proof {
        assert(gust_points_view =~= gust_gradient_points(padding.below as int));
        assert(wind_points_view =~= wind_gradient_points(padding.below as int));
    }
    let mut label: Vec<TextSegment> = Vec::new();
    push_segment(&mut label, "Wind", Rgb::new(0, 255, 33));
    push_segment(&mut label, " and ", Rgb::white());
    push_segment(&mut label, "gust", Rgb::new(70, 119, 67));
    push_segment(&mut label, " speed (m/s)", Rgb::white());
    proof {
        assert(segments_chars(label@) =~= "Wind"@ + " and "@ + "gust"@ + " speed (m/s)"@);
    }
    let ghost d0 = gusts@;
    let ghost d1 = wind@;
    let mut series: Vec<PanelSeries> = Vec::new();
    series.push(PanelSeries { style: SeriesStyle::ShadedBars(gust_gradient), data: gusts });
    series.push(PanelSeries { style: SeriesStyle::ShadedBars(wind_gradient), data: wind });
    let r = render_panel(
        n + 1,
        range,
        spacing,
        padding,
        MarkIntervals::new(5, 5),
        MarkIntervals::new(1, 2),
        times,
        true,
        &label,
        (n * 8) as u32,
        series,
        font,
        header_font,
    );
    proof {
        let pc = n as int + 1;
        let rl = range.spec_len();
        let pr = padding.right as int;
        let fit0 = (d0.len() + 1 == pc && in_vertical_range(d0, rl));
        let fit1 = (d1.len() + 1 == pc && in_vertical_range(d1, rl));
        assert(series@[0].fits(pc, rl, pr) <==> fit0);
        assert(series@[1].fits(pc, rl, pr) <==> fit1);
        assert((forall|j: int|
            0 <= j < series@.len() ==> (#[trigger] series@[j]).fits(pc, rl, pr)) <==> (fit0
            && fit1)) by {
            if fit0 && fit1 {
                assert forall|j: int| 0 <= j < series@.len() implies (#[trigger] series@[j]).fits(
                    pc,
                    rl,
                    pr,
                ) by {
                    assert(j == 0 || j == 1);
                }
            }
        }
        assert(paint_view(series@) =~= wind_paint(d1, d0, padding.below as int)) by {
            assert(paint_view(series@).len() == 2);
            assert(paint_view(series@)[0] == PaintSeries {
                style: PaintStyle::ShadedBars(gust_gradient_points(padding.below as int)),
                data: d0,
            });
            assert(paint_view(series@)[1] == PaintSeries {
                style: PaintStyle::ShadedBars(wind_gradient_points(padding.below as int)),
                data: d1,
            });
        }
    }
    r
}

} // verus!
