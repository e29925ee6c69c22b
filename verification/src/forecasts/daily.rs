//! The panels of the daily forecast image.
//!
//! Each builder takes its per-day series as fixed-point integers (the
//! measured value times 100) and the day-of-month tick labels, and
//! returns one finished panel canvas. Days sit twenty-five pixels
//! apart, with a tick label under every one.

use crate::canvas::Canvas;
use crate::chart::{chart_height, chart_width, in_vertical_range};
use crate::drawing::{MarkIntervals, Padding, Spacing};
use crate::error::Error;
use crate::gradient::{GradientPoint, MultiPointGradient, Rgb};
use crate::forecasts::hourly::{
    gust_gradient_points, precipitation_paint, uvi_gradient_points, uvi_paint,
    wind_gradient_points, wind_paint,
};
use crate::panel::{
    label_height, layout_ok, lemma_spec_max_bounds, lemma_spec_min_bounds, max_of, min_of,
    padded_above, padding_small, paint_view, panel_chrome_touched, percent_to_fixed, push_segment,
    render_panel, series_paint, shift_series, spec_max, spec_min, values_small, PaintSeries,
    PaintStyle, PanelSeries, SeriesStyle,
};
use crate::range::{next_mult, next_multiple, prev_mult, previous_and_next_multiple, Range};
use crate::text::{segments_chars, RasterFont, TextSegment};
use vstd::prelude::*;

verus! {

/// The number of axis units of the daily temperature panel's range:
/// the extent of all four series, padded outward to multiples of four
/// and kept non-degenerate.
pub open spec fn temperature_range_len(
    temp_min: Seq<i32>,
    temp_max: Seq<i32>,
    apparent_min: Seq<i32>,
    apparent_max: Seq<i32>,
) -> int
    recommends
        temp_max.len() >= 1,
{
    let floor = temp_max[0] as int;
    let lo = prev_mult(
        spec_min(temp_min, spec_min(temp_max, spec_min(apparent_min, spec_min(apparent_max, floor)))),
        4,
    );
    let nx = next_mult(
        spec_max(temp_min, spec_max(temp_max, spec_max(apparent_min, spec_max(apparent_max, floor)))),
        4,
    );
    (if lo == nx {
        lo + 4
    } else {
        nx
    }) - lo + 1
}

/// The widened margins of the daily temperature panel, which centres
/// its points by moving half a slot into each horizontal margin.
pub open spec fn temperature_padding(padding: Padding) -> Padding {
    Padding {
        left: (padding.left + 12) as u32,
        right: (padding.right + 12) as u32,
        ..padding
    }
}

/// What the daily temperature panel's series paint: both apparent
/// lines, then the minimum and maximum lines, each shifted to the
/// padded range's start.
pub open spec fn temperature_paint(
    temp_min: Seq<i32>,
    temp_max: Seq<i32>,
    apparent_min: Seq<i32>,
    apparent_max: Seq<i32>,
) -> Seq<PaintSeries> {
    let start = prev_mult(
        spec_min(
            temp_min,
            spec_min(temp_max, spec_min(apparent_min, spec_min(apparent_max, temp_max[0] as int))),
        ),
        4,
    );
    seq![
        PaintSeries {
            style: PaintStyle::Line(Rgb { red: 0u8, green: 170u8, blue: 33u8 }),
            data: apparent_min.map_values(|v: i32| (v - start) as i32),
        },
        PaintSeries {
            style: PaintStyle::Line(Rgb { red: 0u8, green: 170u8, blue: 33u8 }),
            data: apparent_max.map_values(|v: i32| (v - start) as i32),
        },
        PaintSeries {
            style: PaintStyle::Line(Rgb { red: 0u8, green: 148u8, blue: 255u8 }),
            data: temp_min.map_values(|v: i32| (v - start) as i32),
        },
        PaintSeries {
            style: PaintStyle::Line(Rgb { red: 255u8, green: 0u8, blue: 0u8 }),
            data: temp_max.map_values(|v: i32| (v - start) as i32),
        },
    ]
}

/// What the daily probability panel's series paint: the maximum, mean
/// and minimum probabilities as bars over one another, in fixed-point
/// form.
pub open spec fn pop_paint(
    probability_min: Seq<u8>,
    probability_mean: Seq<u8>,
    probability_max: Seq<u8>,
) -> Seq<PaintSeries> {
    seq![
        PaintSeries {
            style: PaintStyle::Bars(Rgb { red: 0u8, green: 90u8, blue: 255u8 }),
            data: probability_max.map_values(|v: u8| (v * 100) as i32),
        },
        PaintSeries {
            style: PaintStyle::Bars(Rgb { red: 0u8, green: 180u8, blue: 255u8 }),
            data: probability_mean.map_values(|v: u8| (v * 100) as i32),
        },
        PaintSeries {
            style: PaintStyle::Bars(Rgb { red: 100u8, green: 200u8, blue: 255u8 }),
            data: probability_min.map_values(|v: u8| (v * 100) as i32),
        },
    ]
}

/// The temperature panel: minimum, maximum and both apparent
/// temperature lines over a range padded outward to multiples of four.
pub fn temperature_graph(
    temp_min: Vec<i32>,
    temp_max: Vec<i32>,
    apparent_min: Vec<i32>,
    apparent_max: Vec<i32>,
    times: Vec<u8>,
    padding: Padding,
    font: &RasterFont,
    header_font: &RasterFont,
) -> (r: Result<Canvas, Error>)
    requires
        font.wf(),
        header_font.wf(),
        values_small(temp_min@),
        values_small(temp_max@),
        values_small(apparent_min@),
        values_small(apparent_max@),
        padding_small(padding),
        1 <= temp_max@.len() <= 0x10_0000,
    ensures
        r is Ok <==> layout_ok(
            temp_max@.len() as int,
            temperature_range_len(temp_min@, temp_max@, apparent_min@, apparent_max@),
            Spacing { horizontal: 25, vertical: 3 },
            temperature_padding(padding),
            "Minimum"@ + ", "@ + "maximum"@ + " and "@ + "apparent minimum and maximum"@
                + " temperatures (°C)"@,
            (temp_max@.len() as int - 1) * 25,
            header_font,
        ) && temp_min@.len() == temp_max@.len() && apparent_min@.len() == temp_max@.len()
            && apparent_max@.len() == temp_max@.len(),
        r matches Ok(c) ==> c.wf() && c.spec_width() == chart_width(
            temp_max@.len() as int,
            Spacing { horizontal: 25, vertical: 3 },
            temperature_padding(padding),
        ) && c.spec_height() == chart_height(
            temperature_range_len(temp_min@, temp_max@, apparent_min@, apparent_max@),
            Spacing { horizontal: 25, vertical: 3 },
            temperature_padding(padding),
        ) + label_height(
            header_font,
            "Minimum"@ + ", "@ + "maximum"@ + " and "@ + "apparent minimum and maximum"@
                + " temperatures (°C)"@,
            (temp_max@.len() as int - 1) * 25,
        ),
        r matches Ok(c) ==> forall|x: int, yb: int|
            0 <= x < c.spec_width() && 0 <= yb < c.spec_height() && series_paint(
                temperature_paint(temp_min@, temp_max@, apparent_min@, apparent_max@),
                temperature_range_len(temp_min@, temp_max@, apparent_min@, apparent_max@),
                Spacing { horizontal: 25, vertical: 3 },
                padded_above(
                    temperature_padding(padding),
                    header_font,
                    "Minimum"@ + ", "@ + "maximum"@ + " and "@ + "apparent minimum and maximum"@
                + " temperatures (°C)"@,
                    (temp_max@.len() as int - 1) * 25,
                ),
                x,
                yb,
            ) is Some ==> #[trigger] c.spec_pixel_up(x, yb) == series_paint(
                temperature_paint(temp_min@, temp_max@, apparent_min@, apparent_max@),
                temperature_range_len(temp_min@, temp_max@, apparent_min@, apparent_max@),
                Spacing { horizontal: 25, vertical: 3 },
                padded_above(
                    temperature_padding(padding),
                    header_font,
                    "Minimum"@ + ", "@ + "maximum"@ + " and "@ + "apparent minimum and maximum"@
                + " temperatures (°C)"@,
                    (temp_max@.len() as int - 1) * 25,
                ),
                x,
                yb,
            )->0,
        r matches Ok(c) ==> forall|x: int, y: int|
            0 <= x < c.spec_width() && 0 <= y < c.spec_height() && !panel_chrome_touched(
                temp_max@.len() as int,
                temperature_range_len(temp_min@, temp_max@, apparent_min@, apparent_max@),
                Spacing { horizontal: 25, vertical: 3 },
                temperature_padding(padding),
                "Minimum"@ + ", "@ + "maximum"@ + " and "@ + "apparent minimum and maximum"@
                + " temperatures (°C)"@,
                (temp_max@.len() as int - 1) * 25,
                2,
                1,
                4,
                header_font,
                font,
                x,
                y,
            ) && series_paint(
                temperature_paint(temp_min@, temp_max@, apparent_min@, apparent_max@),
                temperature_range_len(temp_min@, temp_max@, apparent_min@, apparent_max@),
                Spacing { horizontal: 25, vertical: 3 },
                padded_above(
                    temperature_padding(padding),
                    header_font,
                    "Minimum"@ + ", "@ + "maximum"@ + " and "@ + "apparent minimum and maximum"@
                + " temperatures (°C)"@,
                    (temp_max@.len() as int - 1) * 25,
                ),
                x,
                c.spec_height() - 1 - y,
            ) is None ==> #[trigger] c.spec_pixel(x, y) == (Rgb {
                red: 0u8,
                green: 0u8,
                blue: 0u8,
            }),
        r matches Err(e) ==> e is Unfriendly,
{
    let spacing = Spacing { horizontal: 25, vertical: 3 };
    let pad = Padding { left: padding.left + 12, right: padding.right + 12, ..padding };
    let n = temp_max.len();
    let floor = temp_max[0];
    proof {
        lemma_spec_min_bounds(apparent_max@, floor as int);
        lemma_spec_min_bounds(apparent_min@, spec_min(apparent_max@, floor as int));
        lemma_spec_min_bounds(temp_max@, spec_min(apparent_min@, spec_min(apparent_max@, floor as int)));
        lemma_spec_min_bounds(
            temp_min@,
            spec_min(temp_max@, spec_min(apparent_min@, spec_min(apparent_max@, floor as int))),
        );
        lemma_spec_max_bounds(apparent_max@, floor as int);
        lemma_spec_max_bounds(apparent_min@, spec_max(apparent_max@, floor as int));
        lemma_spec_max_bounds(temp_max@, spec_max(apparent_min@, spec_max(apparent_max@, floor as int)));
        lemma_spec_max_bounds(
            temp_min@,
            spec_max(temp_max@, spec_max(apparent_min@, spec_max(apparent_max@, floor as int))),
        );
    }
    let lo = min_of(&temp_min, min_of(&temp_max, min_of(&apparent_min, min_of(&apparent_max, floor))));
    let hi = max_of(&temp_min, max_of(&temp_max, max_of(&apparent_min, max_of(&apparent_max, floor))));
    let range = previous_and_next_multiple(Range::new(lo, hi), 4);
    let start = range.start();
    let shifted_apparent_min = shift_series(&apparent_min, start);
    let shifted_apparent_max = shift_series(&apparent_max, start);
    let shifted_temp_min = shift_series(&temp_min, start);
    let shifted_temp_max = shift_series(&temp_max, start);
    let mut label: Vec<TextSegment> = Vec::new();
    push_segment(&mut label, "Minimum", Rgb::new(0, 148, 255));
    push_segment(&mut label, ", ", Rgb::white());
    push_segment(&mut label, "maximum", Rgb::new(255, 0, 0));
    push_segment(&mut label, " and ", Rgb::white());
    push_segment(&mut label, "apparent minimum and maximum", Rgb::new(0, 170, 33));
    push_segment(&mut label, " temperatures (°C)", Rgb::white());
    proof {
        assert(segments_chars(label@) =~= "Minimum"@ + ", "@ + "maximum"@ + " and "@
            + "apparent minimum and maximum"@ + " temperatures (°C)"@);
    }
    let ghost d0 = shifted_apparent_min@;
    let ghost d1 = shifted_apparent_max@;
    let ghost d2 = shifted_temp_min@;
    let ghost d3 = shifted_temp_max@;
    let mut series: Vec<PanelSeries> = Vec::new();
    series.push(
        PanelSeries { style: SeriesStyle::Line(Rgb::new(0, 170, 33)), data: shifted_apparent_min },
    );
    series.push(
        PanelSeries { style: SeriesStyle::Line(Rgb::new(0, 170, 33)), data: shifted_apparent_max },
    );
    series.push(
        PanelSeries { style: SeriesStyle::Line(Rgb::new(0, 148, 255)), data: shifted_temp_min },
    );
    series.push(
        PanelSeries { style: SeriesStyle::Line(Rgb::new(255, 0, 0)), data: shifted_temp_max },
    );
    let r = render_panel(
        n,
        range,
        spacing,
        pad,
        MarkIntervals::new(2, 4),
        MarkIntervals::new(1, 1),
        times,
        false,
        &label,
        ((n - 1) * 25) as u32,
        series,
        font,
        header_font,
    );
    proof {
        let pc = n as int;
        let rl = range.spec_len();
        let pr = pad.right as int;
        assert(rl == temperature_range_len(temp_min@, temp_max@, apparent_min@, apparent_max@));
        let fit0 = (d0.len() == pc && 1 <= pr);
        let fit1 = (d1.len() == pc && 1 <= pr);
        let fit2 = (d2.len() == pc && 1 <= pr);
        let fit3 = (d3.len() == pc && 1 <= pr);
        assert(series@[0].fits(pc, rl, pr) <==> fit0);
        assert(series@[1].fits(pc, rl, pr) <==> fit1);
        assert(series@[2].fits(pc, rl, pr) <==> fit2);
        assert(series@[3].fits(pc, rl, pr) <==> fit3);
        assert((forall|j: int|
            0 <= j < series@.len() ==> (#[trigger] series@[j]).fits(pc, rl, pr)) <==> (fit0 && fit1
            && fit2 && fit3)) by {
            if fit0 && fit1 && fit2 && fit3 {
                assert forall|j: int| 0 <= j < series@.len() implies (#[trigger] series@[j]).fits(
                    pc,
                    rl,
                    pr,
                ) by {
                    assert(j == 0 || j == 1 || j == 2 || j == 3);
                }
            }
        }
        let ghost shift = prev_mult(
            spec_min(
                temp_min@,
                spec_min(
                    temp_max@,
                    spec_min(apparent_min@, spec_min(apparent_max@, temp_max@[0] as int)),
                ),
            ),
            4,
        );
        assert(start as int == shift);
        assert(d0 =~= apparent_min@.map_values(|v: i32| (v - shift) as i32)) by {
            assert forall|j: int|
                0 <= j < apparent_min@.len() implies d0[j] == apparent_min@.map_values(
                |v: i32| (v - shift) as i32,
            )[j] by {
                assert(-0x1000_0000 <= apparent_min@[j] <= 0x1000_0000);
            }
        }
        assert(d1 =~= apparent_max@.map_values(|v: i32| (v - shift) as i32)) by {
            assert forall|j: int|
                0 <= j < apparent_max@.len() implies d1[j] == apparent_max@.map_values(
                |v: i32| (v - shift) as i32,
            )[j] by {
                assert(-0x1000_0000 <= apparent_max@[j] <= 0x1000_0000);
            }
        }
        assert(d2 =~= temp_min@.map_values(|v: i32| (v - shift) as i32)) by {
            assert forall|j: int| 0 <= j < temp_min@.len() implies d2[j] == temp_min@.map_values(
                |v: i32| (v - shift) as i32,
            )[j] by {
                assert(-0x1000_0000 <= temp_min@[j] <= 0x1000_0000);
            }
        }
        assert(d3 =~= temp_max@.map_values(|v: i32| (v - shift) as i32)) by {
            assert forall|j: int| 0 <= j < temp_max@.len() implies d3[j] == temp_max@.map_values(
                |v: i32| (v - shift) as i32,
            )[j] by {
                assert(-0x1000_0000 <= temp_max@[j] <= 0x1000_0000);
            }
        }
        assert(paint_view(series@) =~= temperature_paint(
            temp_min@,
            temp_max@,
            apparent_min@,
            apparent_max@,
        )) by {
            assert(paint_view(series@).len() == 4);
            assert(paint_view(series@)[0] == PaintSeries {
                style: PaintStyle::Line(Rgb { red: 0u8, green: 170u8, blue: 33u8 }),
                data: d0,
            });
            assert(paint_view(series@)[1] == PaintSeries {
                style: PaintStyle::Line(Rgb { red: 0u8, green: 170u8, blue: 33u8 }),
                data: d1,
            });
            assert(paint_view(series@)[2] == PaintSeries {
                style: PaintStyle::Line(Rgb { red: 0u8, green: 148u8, blue: 255u8 }),
                data: d2,
            });
            assert(paint_view(series@)[3] == PaintSeries {
                style: PaintStyle::Line(Rgb { red: 255u8, green: 0u8, blue: 0u8 }),
                data: d3,
            });
        }
    }
    r
}

/// The total-precipitation panel: one solid bar per day, the range
/// padded up to the next multiple of twenty-five millimetres times one
/// hundred.
pub fn precipitation_graph(
    precipitation: Vec<i32>,
    times: Vec<u8>,
    padding: Padding,
    font: &RasterFont,
    header_font: &RasterFont,
) -> (r: Result<Canvas, Error>)
    requires
        font.wf(),
        header_font.wf(),
        values_small(precipitation@),
        padding_small(padding),
        1 <= precipitation@.len() <= 0x10_0000,
    ensures
        r is Ok <==> layout_ok(
            precipitation@.len() as int + 1,
            next_mult(spec_max(precipitation@, 0), 25) + 1,
            Spacing { horizontal: 25, vertical: 1 },
            padding,
            "Total "@ + "precipitation"@ + " (mm)"@,
            precipitation@.len() as int * 25,
            header_font,
        ) && in_vertical_range(precipitation@, next_mult(spec_max(precipitation@, 0), 25) + 1),
        r matches Ok(c) ==> c.wf() && c.spec_width() == chart_width(
            precipitation@.len() as int + 1,
            Spacing { horizontal: 25, vertical: 1 },
            padding,
        ) && c.spec_height() == chart_height(
            next_mult(spec_max(precipitation@, 0), 25) + 1,
            Spacing { horizontal: 25, vertical: 1 },
            padding,
        ) + label_height(
            header_font,
            "Total "@ + "precipitation"@ + " (mm)"@,
            precipitation@.len() as int * 25,
        ),
        r matches Ok(c) ==> forall|x: int, yb: int|
            0 <= x < c.spec_width() && 0 <= yb < c.spec_height() && series_paint(
                precipitation_paint(precipitation@),
                next_mult(spec_max(precipitation@, 0), 25) + 1,
                Spacing { horizontal: 25, vertical: 1 },
                padded_above(
                    padding,
                    header_font,
                    "Total "@ + "precipitation"@ + " (mm)"@,
                    precipitation@.len() as int * 25,
                ),
                x,
                yb,
            ) is Some ==> #[trigger] c.spec_pixel_up(x, yb) == series_paint(
                precipitation_paint(precipitation@),
                next_mult(spec_max(precipitation@, 0), 25) + 1,
                Spacing { horizontal: 25, vertical: 1 },
                padded_above(
                    padding,
                    header_font,
                    "Total "@ + "precipitation"@ + " (mm)"@,
                    precipitation@.len() as int * 25,
                ),
                x,
                yb,
            )->0,
        r matches Ok(c) ==> forall|x: int, y: int|
            0 <= x < c.spec_width() && 0 <= y < c.spec_height() && !panel_chrome_touched(
                precipitation@.len() as int + 1,
                next_mult(spec_max(precipitation@, 0), 25) + 1,
                Spacing { horizontal: 25, vertical: 1 },
                padding,
                "Total "@ + "precipitation"@ + " (mm)"@,
                precipitation@.len() as int * 25,
                25,
                1,
                25,
                header_font,
                font,
                x,
                y,
            ) && series_paint(
                precipitation_paint(precipitation@),
                next_mult(spec_max(precipitation@, 0), 25) + 1,
                Spacing { horizontal: 25, vertical: 1 },
                padded_above(
                    padding,
                    header_font,
                    "Total "@ + "precipitation"@ + " (mm)"@,
                    precipitation@.len() as int * 25,
                ),
                x,
                c.spec_height() - 1 - y,
            ) is None ==> #[trigger] c.spec_pixel(x, y) == (Rgb {
                red: 0u8,
                green: 0u8,
                blue: 0u8,
            }),
        r matches Err(e) ==> e is Unfriendly,
{
    let spacing = Spacing { horizontal: 25, vertical: 1 };
    let n = precipitation.len();
    proof {
        lemma_spec_max_bounds(precipitation@, 0);
    }
    let max_precipitation = max_of(&precipitation, 0);
    let end = next_multiple(max_precipitation, 25);
    let range = Range::new(0, end);
    let mut label: Vec<TextSegment> = Vec::new();
    push_segment(&mut label, "Total ", Rgb::white());
    push_segment(&mut label, "precipitation", Rgb::new(0, 148, 255));
    push_segment(&mut label, " (mm)", Rgb::white());
    proof {
        assert(segments_chars(label@) =~= "Total "@ + "precipitation"@ + " (mm)"@);
    }
    let ghost d0 = precipitation@;
    let mut series: Vec<PanelSeries> = Vec::new();
    series.push(PanelSeries { style: SeriesStyle::Bars(Rgb::new(0, 148, 255)), data: precipitation });
    let r = render_panel(
        n + 1,
        range,
        spacing,
        padding,
        MarkIntervals::new(25, 25),
        MarkIntervals::new(1, 1),
        times,
        true,
        &label,
        (n * 25) as u32,
        series,
        font,
        header_font,
    );
    proof {
        let pc = n as int + 1;
        let rl = range.spec_len();
        let pr = padding.right as int;
        let fit0 = (d0.len() + 1 == pc && in_vertical_range(d0, rl));
        assert(series@[0].fits(pc, rl, pr) <==> fit0);
        assert((forall|j: int|
            0 <= j < series@.len() ==> (#[trigger] series@[j]).fits(pc, rl, pr)) <==> fit0) by {
            if fit0 {
                assert forall|j: int| 0 <= j < series@.len() implies (#[trigger] series@[j]).fits(
                    pc,
                    rl,
                    pr,
                ) by {
                    assert(j == 0);
                }
            }
        }
        assert(paint_view(series@) =~= precipitation_paint(precipitation@)) by {
            assert(paint_view(series@).len() == 1);
            assert(paint_view(series@)[0] == PaintSeries {
                style: PaintStyle::Bars(Rgb { red: 0u8, green: 148u8, blue: 255u8 }),
                data: d0,
            });
        }
    }
    r
}

/// The wind panel: maximum gust bars behind maximum wind-speed bars,
/// both shaded by absolute pixel height, on a range padded up to
/// multiples of five.
pub fn wind_graph(
    wind_max: Vec<i32>,
    gusts_max: Vec<i32>,
    times: Vec<u8>,
    padding: Padding,
    font: &RasterFont,
    header_font: &RasterFont,
) -> (r: Result<Canvas, Error>)
    requires
        font.wf(),
        header_font.wf(),
        values_small(wind_max@),
        values_small(gusts_max@),
        padding_small(padding),
        1 <= gusts_max@.len() <= 0x10_0000,
    ensures
        r is Ok <==> layout_ok(
            gusts_max@.len() as int + 1,
            next_mult(spec_max(wind_max@, spec_max(gusts_max@, 0)), 5) + 1,
            Spacing { horizontal: 25, vertical: 5 },
            padding,
            "Maximum "@ + "wind"@ + " and "@ + "gust"@ + " speeds (m/s)"@,
            gusts_max@.len() as int * 25,
            header_font,
        ) && wind_max@.len() == gusts_max@.len() && in_vertical_range(
            gusts_max@,
            next_mult(spec_max(wind_max@, spec_max(gusts_max@, 0)), 5) + 1,
        ) && in_vertical_range(
            wind_max@,
            next_mult(spec_max(wind_max@, spec_max(gusts_max@, 0)), 5) + 1,
        ),
        r matches Ok(c) ==> c.wf() && c.spec_width() == chart_width(
            gusts_max@.len() as int + 1,
            Spacing { horizontal: 25, vertical: 5 },
            padding,
        ) && c.spec_height() == chart_height(
            next_mult(spec_max(wind_max@, spec_max(gusts_max@, 0)), 5) + 1,
            Spacing { horizontal: 25, vertical: 5 },
            padding,
        ) + label_height(
            header_font,
            "Maximum "@ + "wind"@ + " and "@ + "gust"@ + " speeds (m/s)"@,
            gusts_max@.len() as int * 25,
        ),
        r matches Ok(c) ==> forall|x: int, yb: int|
            0 <= x < c.spec_width() && 0 <= yb < c.spec_height() && series_paint(
                wind_paint(wind_max@, gusts_max@, padding.below as int),
                next_mult(spec_max(wind_max@, spec_max(gusts_max@, 0)), 5) + 1,
                Spacing { horizontal: 25, vertical: 5 },
                padded_above(
                    padding,
                    header_font,
                    "Maximum "@ + "wind"@ + " and "@ + "gust"@ + " speeds (m/s)"@,
                    gusts_max@.len() as int * 25,
                ),
                x,
                yb,
            ) is Some ==> #[trigger] c.spec_pixel_up(x, yb) == series_paint(
                wind_paint(wind_max@, gusts_max@, padding.below as int),
                next_mult(spec_max(wind_max@, spec_max(gusts_max@, 0)), 5) + 1,
                Spacing { horizontal: 25, vertical: 5 },
                padded_above(
                    padding,
                    header_font,
                    "Maximum "@ + "wind"@ + " and "@ + "gust"@ + " speeds (m/s)"@,
                    gusts_max@.len() as int * 25,
                ),
                x,
                yb,
            )->0,
        r matches Ok(c) ==> forall|x: int, y: int|
            0 <= x < c.spec_width() && 0 <= y < c.spec_height() && !panel_chrome_touched(
                gusts_max@.len() as int + 1,
                next_mult(spec_max(wind_max@, spec_max(gusts_max@, 0)), 5) + 1,
                Spacing { horizontal: 25, vertical: 5 },
                padding,
                "Maximum "@ + "wind"@ + " and "@ + "gust"@ + " speeds (m/s)"@,
                gusts_max@.len() as int * 25,
                5,
                1,
                5,
                header_font,
                font,
                x,
                y,
            ) && series_paint(
                wind_paint(wind_max@, gusts_max@, padding.below as int),
                next_mult(spec_max(wind_max@, spec_max(gusts_max@, 0)), 5) + 1,
                Spacing { horizontal: 25, vertical: 5 },
                padded_above(
                    padding,
                    header_font,
                    "Maximum "@ + "wind"@ + " and "@ + "gust"@ + " speeds (m/s)"@,
                    gusts_max@.len() as int * 25,
                ),
                x,
                c.spec_height() - 1 - y,
            ) is None ==> #[trigger] c.spec_pixel(x, y) == (Rgb {
                red: 0u8,
                green: 0u8,
                blue: 0u8,
            }),
        r matches Err(e) ==> e is Unfriendly,
{
    let spacing = Spacing { horizontal: 25, vertical: 5 };
    let n = gusts_max.len();
    proof {
        lemma_spec_max_bounds(gusts_max@, 0);
        lemma_spec_max_bounds(wind_max@, spec_max(gusts_max@, 0));
    }
    let max_speed = max_of(&wind_max, max_of(&gusts_max, 0));
    let end = next_multiple(max_speed, 5);
    let range = Range::new(0, end);
    let mut gust_points: Vec<GradientPoint> = Vec::new();
    gust_points.push(GradientPoint::from_rgb(padding.below, [70, 119, 67]));
    gust_points.push(GradientPoint::from_rgb(padding.below + 35, [118, 118, 62]));
    gust_points.push(GradientPoint::from_rgb(padding.below + 70, [122, 67, 62]));
    gust_points.push(GradientPoint::from_rgb(padding.below + 105, [103, 78, 122]));
    let mut wind_points: Vec<GradientPoint> = Vec::new();
    wind_points.push(GradientPoint::from_rgb(padding.below, [0, 255, 33]));
    wind_points.push(GradientPoint::from_rgb(padding.below + 35, [255, 255, 33]));
    wind_points.push(GradientPoint::from_rgb(padding.below + 70, [255, 0, 33]));
    wind_points.push(GradientPoint::from_rgb(padding.below + 105, [188, 66, 255]));
    proof {
        assert forall|j: int|
            0 <= j < gust_points@.len() - 1 implies #[trigger] gust_points@[j].position
            < gust_points@[j + 1].position by {
            assert(gust_points@[0].position < gust_points@[1].position < gust_points@[2].position
                < gust_points@[3].position);
        }
        assert forall|j: int|
            0 <= j < wind_points@.len() - 1 implies #[trigger] wind_points@[j].position
            < wind_points@[j + 1].position by {
            assert(wind_points@[0].position < wind_points@[1].position < wind_points@[2].position
                < wind_points@[3].position);
        }
    }
    let ghost gust_points_view = gust_points@;
    let ghost wind_points_view = wind_points@;
    let gust_gradient = MultiPointGradient::new(gust_points);
    let wind_gradient = MultiPointGradient::new(wind_points);
    proof {
        assert(gust_points_view =~= gust_gradient_points(padding.below as int));
        assert(wind_points_view =~= wind_gradient_points(padding.below as int));
    }
    let mut label: Vec<TextSegment> = Vec::new();
    push_segment(&mut label, "Maximum ", Rgb::white());
    push_segment(&mut label, "wind", Rgb::new(0, 255, 33));
    push_segment(&mut label, " and ", Rgb::white());
    push_segment(&mut label, "gust", Rgb::new(70, 119, 67));
    push_segment(&mut label, " speeds (m/s)", Rgb::white());
    proof {
        assert(segments_chars(label@) =~= "Maximum "@ + "wind"@ + " and "@ + "gust"@
            + " speeds (m/s)"@);
    }
    let ghost d0 = gusts_max@;
    let ghost d1 = wind_max@;
    let mut series: Vec<PanelSeries> = Vec::new();
    series.push(PanelSeries { style: SeriesStyle::ShadedBars(gust_gradient), data: gusts_max });
    series.push(PanelSeries { style: SeriesStyle::ShadedBars(wind_gradient), data: wind_max });
    let r = render_panel(
        n + 1,
        range,
        spacing,
        padding,
        MarkIntervals::new(5, 5),
        MarkIntervals::new(1, 1),
        times,
        true,
        &label,
        (n * 25) as u32,
        series,
        font,
        header_font,
    );
    proof {
        let pc = n as int + 1;
        let rl = range.spec_len();
        let pr = padding.right as int;
        let fit0 = (d0.len() + 1 == pc && in_vertical_range(d0, rl));
        let fit1 = (d1.len() + 1 == pc && in_vertical_range(d1, rl));
        assert(series@[0].fits(pc, rl, pr) <==> fit0);
        assert(series@[1].fits(pc, rl, pr) <==> fit1);
        assert((forall|j: int|
            0 <= j < series@.len() ==> (#[trigger] series@[j]).fits(pc, rl, pr)) <==> (fit0
            && fit1)) by {
            if fit0 && fit1 {
                assert forall|j: int| 0 <= j < series@.len() implies (#[trigger] series@[j]).fits(
                    pc,
                    rl,
                    pr,
                ) by {
                    assert(j == 0 || j == 1);
                }
            }
        }
        assert(paint_view(series@) =~= wind_paint(d1, d0, padding.below as int)) by {
            assert(paint_view(series@).len() == 2);
            assert(paint_view(series@)[0] == PaintSeries {
                style: PaintStyle::ShadedBars(gust_gradient_points(padding.below as int)),
                data: d0,
            });
            assert(paint_view(series@)[1] == PaintSeries {
                style: PaintStyle::ShadedBars(wind_gradient_points(padding.below as int)),
                data: d1,
            });
        }
    }
    r
}

/// The UV index panel: a reference mark for the clear-sky maximum over
/// a gradient bar per day.
pub fn uv_graph(
    uv_max: Vec<i32>,
    uv_clear_max: Vec<i32>,
    times: Vec<u8>,
    padding: Padding,
    font: &RasterFont,
    header_font: &RasterFont,
) -> (r: Result<Canvas, Error>)
    requires
        font.wf(),
        header_font.wf(),
        values_small(uv_max@),
        values_small(uv_clear_max@),
        padding_small(padding),
        1 <= uv_max@.len() <= 0x10_0000,
    ensures
        r is Ok <==> layout_ok(
            uv_max@.len() as int + 1,
            next_mult(spec_max(uv_clear_max@, spec_max(uv_max@, 0)), 1) + 1,
            Spacing { horizontal: 25, vertical: 10 },
            padding,
            "UV index"@ + " (and "@ + "clear sky UV"@ + ")"@,
            (uv_max@.len() as int - 1) * 25,
            header_font,
        ) && uv_clear_max@.len() == uv_max@.len() && in_vertical_range(
            uv_clear_max@,
            next_mult(spec_max(uv_clear_max@, spec_max(uv_max@, 0)), 1) + 1,
        ) && in_vertical_range(
            uv_max@,
            next_mult(spec_max(uv_clear_max@, spec_max(uv_max@, 0)), 1) + 1,
        ),
        r matches Ok(c) ==> c.wf() && c.spec_width() == chart_width(
            uv_max@.len() as int + 1,
            Spacing { horizontal: 25, vertical: 10 },
            padding,
        ) && c.spec_height() == chart_height(
            next_mult(spec_max(uv_clear_max@, spec_max(uv_max@, 0)), 1) + 1,
            Spacing { horizontal: 25, vertical: 10 },
            padding,
        ) + label_height(
            header_font,
            "UV index"@ + " (and "@ + "clear sky UV"@ + ")"@,
            (uv_max@.len() as int - 1) * 25,
        ),
        r matches Ok(c) ==> forall|x: int, yb: int|
            0 <= x < c.spec_width() && 0 <= yb < c.spec_height() && series_paint(
                uvi_paint(uv_max@, uv_clear_max@, padding.below as int),
                next_mult(spec_max(uv_clear_max@, spec_max(uv_max@, 0)), 1) + 1,
                Spacing { horizontal: 25, vertical: 10 },
                padded_above(
                    padding,
                    header_font,
                    "UV index"@ + " (and "@ + "clear sky UV"@ + ")"@,
                    (uv_max@.len() as int - 1) * 25,
                ),
                x,
                yb,
            ) is Some ==> #[trigger] c.spec_pixel_up(x, yb) == series_paint(
                uvi_paint(uv_max@, uv_clear_max@, padding.below as int),
                next_mult(spec_max(uv_clear_max@, spec_max(uv_max@, 0)), 1) + 1,
                Spacing { horizontal: 25, vertical: 10 },
                padded_above(
                    padding,
                    header_font,
                    "UV index"@ + " (and "@ + "clear sky UV"@ + ")"@,
                    (uv_max@.len() as int - 1) * 25,
                ),
                x,
                yb,
            )->0,
        r matches Ok(c) ==> forall|x: int, y: int|
            0 <= x < c.spec_width() && 0 <= y < c.spec_height() && !panel_chrome_touched(
                uv_max@.len() as int + 1,
                next_mult(spec_max(uv_clear_max@, spec_max(uv_max@, 0)), 1) + 1,
                Spacing { horizontal: 25, vertical: 10 },
                padding,
                "UV index"@ + " (and "@ + "clear sky UV"@ + ")"@,
                (uv_max@.len() as int - 1) * 25,
                1,
                1,
                1,
                header_font,
                font,
                x,
                y,
            ) && series_paint(
                uvi_paint(uv_max@, uv_clear_max@, padding.below as int),
                next_mult(spec_max(uv_clear_max@, spec_max(uv_max@, 0)), 1) + 1,
                Spacing { horizontal: 25, vertical: 10 },
                padded_above(
                    padding,
                    header_font,
                    "UV index"@ + " (and "@ + "clear sky UV"@ + ")"@,
                    (uv_max@.len() as int - 1) * 25,
                ),
                x,
                c.spec_height() - 1 - y,
            ) is None ==> #[trigger] c.spec_pixel(x, y) == (Rgb {
                red: 0u8,
                green: 0u8,
                blue: 0u8,
            }),
        r matches Err(e) ==> e is Unfriendly,
{
    let spacing = Spacing { horizontal: 25, vertical: 10 };
    let n = uv_max.len();
    proof {
        lemma_spec_max_bounds(uv_max@, 0);
        lemma_spec_max_bounds(uv_clear_max@, spec_max(uv_max@, 0));
    }
    let max_uv = max_of(&uv_clear_max, max_of(&uv_max, 0));
    let end = next_multiple(max_uv, 1);
    let range = Range::new(0, end);
    let mut points: Vec<GradientPoint> = Vec::new();
    points.push(GradientPoint::from_rgb(padding.below, [0, 255, 33]));
    points.push(GradientPoint::from_rgb(padding.below + 45, [255, 255, 33]));
    points.push(GradientPoint::from_rgb(padding.below + 90, [255, 0, 33]));
    proof {
        assert forall|j: int| 0 <= j < points@.len() - 1 implies #[trigger] points@[j].position
            < points@[j + 1].position by {
            assert(points@[0].position < points@[1].position < points@[2].position);
        }
    }
    let ghost points_view = points@;
    let gradient = MultiPointGradient::new(points);
    proof {
        assert(points_view =~= uvi_gradient_points(padding.below as int));
    }
    let mut label: Vec<TextSegment> = Vec::new();
    push_segment(&mut label, "UV index", Rgb::new(0, 255, 33));
    push_segment(&mut label, " (and ", Rgb::white());
    push_segment(&mut label, "clear sky UV", Rgb::new(118, 215, 234));
    push_segment(&mut label, ")", Rgb::white());
    proof {
        assert(segments_chars(label@) =~= "UV index"@ + " (and "@ + "clear sky UV"@ + ")"@);
    }
    let ghost d0 = uv_clear_max@;
    let ghost d1 = uv_max@;
    let mut series: Vec<PanelSeries> = Vec::new();
    series.push(
        PanelSeries { style: SeriesStyle::Marks(Rgb::new(118, 215, 234)), data: uv_clear_max },
    );
    series.push(PanelSeries { style: SeriesStyle::ShadedBars(gradient), data: uv_max });
    let r = render_panel(
        n + 1,
        range,
        spacing,
        padding,
        MarkIntervals::new(1, 1),
        MarkIntervals::new(1, 1),
        times,
        true,
        &label,
        ((n - 1) * 25) as u32,
        series,
        font,
        header_font,
    );
    proof {
        let pc = n as int + 1;
        let rl = range.spec_len();
        let pr = padding.right as int;
        let fit0 = (d0.len() + 1 == pc && in_vertical_range(d0, rl));
        let fit1 = (d1.len() + 1 == pc && in_vertical_range(d1, rl));
        assert(series@[0].fits(pc, rl, pr) <==> fit0);
        assert(series@[1].fits(pc, rl, pr) <==> fit1);
        assert((forall|j: int|
            0 <= j < series@.len() ==> (#[trigger] series@[j]).fits(pc, rl, pr)) <==> (fit0
            && fit1)) by {
            if fit0 && fit1 {
                assert forall|j: int| 0 <= j < series@.len() implies (#[trigger] series@[j]).fits(
                    pc,
                    rl,
                    pr,
                ) by {
                    assert(j == 0 || j == 1);
                }
            }
        }
        assert(paint_view(series@) =~= uvi_paint(d1, d0, padding.below as int)) by {
            assert(paint_view(series@).len() == 2);
            assert(paint_view(series@)[0] == PaintSeries {
                style: PaintStyle::Marks(Rgb { red: 118u8, green: 215u8, blue: 234u8 }),
                data: d0,
            });
            assert(paint_view(series@)[1] == PaintSeries {
                style: PaintStyle::ShadedBars(uvi_gradient_points(padding.below as int)),
                data: d1,
            });
        }
    }
    r
}

/// The precipitation-probability panel: the maximum, mean and minimum
/// probability as solid bars drawn over one another, on a fixed
/// zero-to-hundred percent range.
pub fn pop_graph(
    probability_min: Vec<u8>,
    probability_mean: Vec<u8>,
    probability_max: Vec<u8>,
    times: Vec<u8>,
    padding: Padding,
    font: &RasterFont,
    header_font: &RasterFont,
) -> (r: Result<Canvas, Error>)
    requires
        font.wf(),
        header_font.wf(),
        padding_small(padding),
        1 <= probability_max@.len() <= 0x10_0000,
    ensures
        r is Ok <==> layout_ok(
            probability_max@.len() as int + 1,
            10001,
            Spacing { horizontal: 25, vertical: 1 },
            padding,
            "Maximum"@ + ", "@ + "mean"@ + " and "@ + "minimum"@
                + " probability of precipitation"@,
            probability_max@.len() as int * 25,
            header_font,
        ) && probability_min@.len() == probability_max@.len() && probability_mean@.len()
            == probability_max@.len() && (forall|k: int|
            0 <= k < probability_min@.len() ==> #[trigger] probability_min@[k] <= 100) && (forall|
            k: int|
            0 <= k < probability_mean@.len() ==> #[trigger] probability_mean@[k] <= 100) && (forall|
            k: int|
            0 <= k < probability_max@.len() ==> #[trigger] probability_max@[k] <= 100),
        r matches Ok(c) ==> c.wf() && c.spec_width() == chart_width(
            probability_max@.len() as int + 1,
            Spacing { horizontal: 25, vertical: 1 },
            padding,
        ) && c.spec_height() == chart_height(
            10001,
            Spacing { horizontal: 25, vertical: 1 },
            padding,
        ) + label_height(
            header_font,
            "Maximum"@ + ", "@ + "mean"@ + " and "@ + "minimum"@
                + " probability of precipitation"@,
            probability_max@.len() as int * 25,
        ),
        r matches Ok(c) ==> forall|x: int, yb: int|
            0 <= x < c.spec_width() && 0 <= yb < c.spec_height() && series_paint(
                pop_paint(probability_min@, probability_mean@, probability_max@),
                10001,
                Spacing { horizontal: 25, vertical: 1 },
                padded_above(
                    padding,
                    header_font,
                    "Maximum"@ + ", "@ + "mean"@ + " and "@ + "minimum"@
                + " probability of precipitation"@,
                    probability_max@.len() as int * 25,
                ),
                x,
                yb,
            ) is Some ==> #[trigger] c.spec_pixel_up(x, yb) == series_paint(
                pop_paint(probability_min@, probability_mean@, probability_max@),
                10001,
                Spacing { horizontal: 25, vertical: 1 },
                padded_above(
                    padding,
                    header_font,
                    "Maximum"@ + ", "@ + "mean"@ + " and "@ + "minimum"@
                + " probability of precipitation"@,
                    probability_max@.len() as int * 25,
                ),
                x,
                yb,
            )->0,
        r matches Ok(c) ==> forall|x: int, y: int|
            0 <= x < c.spec_width() && 0 <= y < c.spec_height() && !panel_chrome_touched(
                probability_max@.len() as int + 1,
                10001,
                Spacing { horizontal: 25, vertical: 1 },
                padding,
                "Maximum"@ + ", "@ + "mean"@ + " and "@ + "minimum"@
                + " probability of precipitation"@,
                probability_max@.len() as int * 25,
                10,
                1,
                20,
                header_font,
                font,
                x,
                y,
            ) && series_paint(
                pop_paint(probability_min@, probability_mean@, probability_max@),
                10001,
                Spacing { horizontal: 25, vertical: 1 },
                padded_above(
                    padding,
                    header_font,
                    "Maximum"@ + ", "@ + "mean"@ + " and "@ + "minimum"@
                + " probability of precipitation"@,
                    probability_max@.len() as int * 25,
                ),
                x,
                c.spec_height() - 1 - y,
            ) is None ==> #[trigger] c.spec_pixel(x, y) == (Rgb {
                red: 0u8,
                green: 0u8,
                blue: 0u8,
            }),
        r matches Err(e) ==> e is Unfriendly,
{
    let spacing = Spacing { horizontal: 25, vertical: 1 };
    let n = probability_max.len();
    let range = Range::new(0, 10000);
    let scaled_max = percent_to_fixed(&probability_max);
    let scaled_mean = percent_to_fixed(&probability_mean);
    let scaled_min = percent_to_fixed(&probability_min);
    let mut label: Vec<TextSegment> = Vec::new();
    push_segment(&mut label, "Maximum", Rgb::new(0, 90, 255));
    push_segment(&mut label, ", ", Rgb::white());
    push_segment(&mut label, "mean", Rgb::new(0, 180, 255));
    push_segment(&mut label, " and ", Rgb::white());
    push_segment(&mut label, "minimum", Rgb::new(100, 200, 255));
    push_segment(&mut label, " probability of precipitation", Rgb::white());
    proof {
        assert(segments_chars(label@) =~= "Maximum"@ + ", "@ + "mean"@ + " and "@ + "minimum"@
            + " probability of precipitation"@);
    }
    let ghost d0 = scaled_max@;
    let ghost d1 = scaled_mean@;
    let ghost d2 = scaled_min@;
    let mut series: Vec<PanelSeries> = Vec::new();
    series.push(PanelSeries { style: SeriesStyle::Bars(Rgb::new(0, 90, 255)), data: scaled_max });
    series.push(PanelSeries { style: SeriesStyle::Bars(Rgb::new(0, 180, 255)), data: scaled_mean });
    series.push(PanelSeries { style: SeriesStyle::Bars(Rgb::new(100, 200, 255)), data: scaled_min });
    let r = render_panel(
        n + 1,
        range,
        spacing,
        padding,
        MarkIntervals::new(10, 20),
        MarkIntervals::new(1, 1),
        times,
        true,
        &label,
        (n * 25) as u32,
        series,
        font,
        header_font,
    );
    proof {
        let pc = n as int + 1;
        let rl = range.spec_len();
        let pr = padding.right as int;
        let fit0 = (d0.len() + 1 == pc && in_vertical_range(d0, rl));
        let fit1 = (d1.len() + 1 == pc && in_vertical_range(d1, rl));
        let fit2 = (d2.len() + 1 == pc && in_vertical_range(d2, rl));
        assert(series@[0].fits(pc, rl, pr) <==> fit0);
        assert(series@[1].fits(pc, rl, pr) <==> fit1);
        assert(series@[2].fits(pc, rl, pr) <==> fit2);
        assert(in_vertical_range(d0, rl) <==> (forall|k: int|
            0 <= k < probability_max@.len() ==> #[trigger] probability_max@[k] <= 100)) by {
            if forall|k: int| 0 <= k < probability_max@.len() ==> #[trigger] probability_max@[k]
                <= 100 {
                assert forall|k: int| 0 <= k < d0.len() implies 0 <= #[trigger] d0[k] <= rl - 1 by {
                    assert(probability_max@[k] <= 100);
                }
            }
            if in_vertical_range(d0, rl) {
                assert forall|k: int|
                    0 <= k < probability_max@.len() implies #[trigger] probability_max@[k]
                    <= 100 by {
                    assert(0 <= d0[k] <= rl - 1);
                }
            }
        }
        assert(in_vertical_range(d1, rl) <==> (forall|k: int|
            0 <= k < probability_mean@.len() ==> #[trigger] probability_mean@[k] <= 100)) by {
            if forall|k: int| 0 <= k < probability_mean@.len() ==> #[trigger] probability_mean@[k]
                <= 100 {
                assert forall|k: int| 0 <= k < d1.len() implies 0 <= #[trigger] d1[k] <= rl - 1 by {
                    assert(probability_mean@[k] <= 100);
                }
            }
            if in_vertical_range(d1, rl) {
                assert forall|k: int|
                    0 <= k < probability_mean@.len() implies #[trigger] probability_mean@[k]
                    <= 100 by {
                    assert(0 <= d1[k] <= rl - 1);
                }
            }
        }
        assert(in_vertical_range(d2, rl) <==> (forall|k: int|
            0 <= k < probability_min@.len() ==> #[trigger] probability_min@[k] <= 100)) by {
            if forall|k: int| 0 <= k < probability_min@.len() ==> #[trigger] probability_min@[k]
                <= 100 {
                assert forall|k: int| 0 <= k < d2.len() implies 0 <= #[trigger] d2[k] <= rl - 1 by {
                    assert(probability_min@[k] <= 100);
                }
            }
            if in_vertical_range(d2, rl) {
                assert forall|k: int|
                    0 <= k < probability_min@.len() implies #[trigger] probability_min@[k]
                    <= 100 by {
                    assert(0 <= d2[k] <= rl - 1);
                }
            }
        }
        assert((forall|j: int|
            0 <= j < series@.len() ==> (#[trigger] series@[j]).fits(pc, rl, pr)) <==> (fit0 && fit1
            && fit2)) by {
            if fit0 && fit1 && fit2 {
                assert forall|j: int| 0 <= j < series@.len() implies (#[trigger] series@[j]).fits(
                    pc,
                    rl,
                    pr,
                ) by {
                    assert(j == 0 || j == 1 || j == 2);
                }
            }
        }
        assert(d0 =~= probability_max@.map_values(|v: u8| (v * 100) as i32));
        assert(d1 =~= probability_mean@.map_values(|v: u8| (v * 100) as i32));
        assert(d2 =~= probability_min@.map_values(|v: u8| (v * 100) as i32));
        assert(paint_view(series@) =~= pop_paint(
            probability_min@,
            probability_mean@,
            probability_max@,
        )) by {
            assert(paint_view(series@).len() == 3);
            assert(paint_view(series@)[0] == PaintSeries {
                style: PaintStyle::Bars(Rgb { red: 0u8, green: 90u8, blue: 255u8 }),
                data: d0,
            });
            assert(paint_view(series@)[1] == PaintSeries {
                style: PaintStyle::Bars(Rgb { red: 0u8, green: 180u8, blue: 255u8 }),
                data: d1,
            });
            assert(paint_view(series@)[2] == PaintSeries {
                style: PaintStyle::Bars(Rgb { red: 100u8, green: 200u8, blue: 255u8 }),
                data: d2,
            });
        }
    }
    r
}

} // verus!
