//! The soil-moisture forecast panel.

use crate::canvas::Canvas;
use crate::chart::{chart_height, chart_width};
use crate::drawing::{MarkIntervals, Padding, Spacing};
use crate::error::Error;
use crate::gradient::Rgb;
use crate::panel::{
    label_height, layout_ok, lemma_spec_max_bounds, max_of, padded_above, padding_small,
    paint_view, panel_chrome_touched, push_segment, render_panel, series_paint, spec_max,
    values_small, PaintSeries, PaintStyle, PanelSeries, SeriesStyle,
};
use crate::range::Range;
use crate::text::{segments_chars, RasterFont, TextSegment};
use vstd::prelude::*;

verus! {

/// The label text of the soil-moisture panel: the five depth bands.
pub open spec fn soil_label_chars() -> Seq<char> {
    "Soil moisture at "@ + "0 to 1"@ + ", "@ + "1 to 3"@ + ", "@ + "3 to 9"@ + ", "@ + "9 to 27"@
        + " and "@ + "27 to 81"@ + " cm"@
}

/// The top of the soil-moisture panel's range: the largest value, but
/// never less than half a unit of volumetric moisture.
pub open spec fn soil_range_end(
    m0: Seq<i32>,
    m1: Seq<i32>,
    m2: Seq<i32>,
    m3: Seq<i32>,
    m4: Seq<i32>,
) -> int {
    let m = spec_max(m4, spec_max(m3, spec_max(m2, spec_max(m1, spec_max(m0, 0)))));
    if m < 5000 {
        5000
    } else {
        m
    }
}

/// What the soil panel's series paint: one line per depth band,
/// deepest first so shallow bands overlay deeper ones.
pub open spec fn soil_paint(
    m0: Seq<i32>,
    m1: Seq<i32>,
    m2: Seq<i32>,
    m3: Seq<i32>,
    m4: Seq<i32>,
) -> Seq<PaintSeries> {
    seq![
        PaintSeries { style: PaintStyle::Line(Rgb { red: 150u8, green: 0u8, blue: 0u8 }), data: m4 },
        PaintSeries {
            style: PaintStyle::Line(Rgb { red: 200u8, green: 50u8, blue: 50u8 }),
            data: m3,
        },
        PaintSeries {
            style: PaintStyle::Line(Rgb { red: 255u8, green: 100u8, blue: 100u8 }),
            data: m2,
        },
        PaintSeries {
            style: PaintStyle::Line(Rgb { red: 255u8, green: 150u8, blue: 150u8 }),
            data: m1,
        },
        PaintSeries {
            style: PaintStyle::Line(Rgb { red: 255u8, green: 200u8, blue: 200u8 }),
            data: m0,
        },
    ]
}

/// The soil-moisture panel: one line per depth band, deepest drawn
/// first, on a range from zero to the highest moisture seen (with a
/// minimum extent so a dry spell still makes a readable chart). Values
/// are volumetric moisture times ten thousand.
pub fn soil_moisture_graph(
    m0: Vec<i32>,
    m1: Vec<i32>,
    m2: Vec<i32>,
    m3: Vec<i32>,
    m4: Vec<i32>,
    times: Vec<u8>,
    padding: Padding,
    font: &RasterFont,
    header_font: &RasterFont,
) -> (r: Result<Canvas, Error>)
    requires
        font.wf(),
        header_font.wf(),
        values_small(m0@),
        values_small(m1@),
        values_small(m2@),
        values_small(m3@),
        values_small(m4@),
        padding_small(padding),
        1 <= m0@.len() <= 0x10_0000,
    ensures
        r is Ok <==> layout_ok(
            m0@.len() as int,
            soil_range_end(m0@, m1@, m2@, m3@, m4@) + 1,
            Spacing { horizontal: 8, vertical: 3 },
            padding,
            soil_label_chars(),
            (m0@.len() as int - 1) * 8,
            header_font,
        ) && m1@.len() == m0@.len() && m2@.len() == m0@.len() && m3@.len() == m0@.len()
            && m4@.len() == m0@.len() && 1 <= padding.right,
        r matches Ok(c) ==> c.wf() && c.spec_width() == chart_width(
            m0@.len() as int,
            Spacing { horizontal: 8, vertical: 3 },
            padding,
        ) && c.spec_height() == chart_height(
            soil_range_end(m0@, m1@, m2@, m3@, m4@) + 1,
            Spacing { horizontal: 8, vertical: 3 },
            padding,
        ) + label_height(header_font, soil_label_chars(), (m0@.len() as int - 1) * 8),
        r matches Ok(c) ==> forall|x: int, yb: int|
            0 <= x < c.spec_width() && 0 <= yb < c.spec_height() && series_paint(
                soil_paint(m0@, m1@, m2@, m3@, m4@),
                soil_range_end(m0@, m1@, m2@, m3@, m4@) + 1,
                Spacing { horizontal: 8, vertical: 3 },
                padded_above(
                    padding,
                    header_font,
                    soil_label_chars(),
                    (m0@.len() as int - 1) * 8,
                ),
                x,
                yb,
            ) is Some ==> #[trigger] c.spec_pixel_up(x, yb) == series_paint(
                soil_paint(m0@, m1@, m2@, m3@, m4@),
                soil_range_end(m0@, m1@, m2@, m3@, m4@) + 1,
                Spacing { horizontal: 8, vertical: 3 },
                padded_above(
                    padding,
                    header_font,
                    soil_label_chars(),
                    (m0@.len() as int - 1) * 8,
                ),
                x,
                yb,
            )->0,
        r matches Ok(c) ==> forall|x: int, y: int|
            0 <= x < c.spec_width() && 0 <= y < c.spec_height() && !panel_chrome_touched(
                m0@.len() as int,
                soil_range_end(m0@, m1@, m2@, m3@, m4@) + 1,
                Spacing { horizontal: 8, vertical: 3 },
                padding,
                soil_label_chars(),
                (m0@.len() as int - 1) * 8,
                5,
                1,
                5,
                header_font,
                font,
                x,
                y,
            ) && series_paint(
                soil_paint(m0@, m1@, m2@, m3@, m4@),
                soil_range_end(m0@, m1@, m2@, m3@, m4@) + 1,
                Spacing { horizontal: 8, vertical: 3 },
                padded_above(
                    padding,
                    header_font,
                    soil_label_chars(),
                    (m0@.len() as int - 1) * 8,
                ),
                x,
                c.spec_height() - 1 - y,
            ) is None ==> #[trigger] c.spec_pixel(x, y) == (Rgb {
                red: 0u8,
                green: 0u8,
                blue: 0u8,
            }),
        r matches Err(e) ==> e is Unfriendly,
{
    let spacing = Spacing { horizontal: 8, vertical: 3 };
    let n = m0.len();
    proof {
        lemma_spec_max_bounds(m0@, 0);
        lemma_spec_max_bounds(m1@, spec_max(m0@, 0));
        lemma_spec_max_bounds(m2@, spec_max(m1@, spec_max(m0@, 0)));
        lemma_spec_max_bounds(m3@, spec_max(m2@, spec_max(m1@, spec_max(m0@, 0))));
        lemma_spec_max_bounds(m4@, spec_max(m3@, spec_max(m2@, spec_max(m1@, spec_max(m0@, 0)))));
    }
    let highest = max_of(&m4, max_of(&m3, max_of(&m2, max_of(&m1, max_of(&m0, 0)))));
    let end = if highest < 5000 {
        5000
    } else {
        highest
    };
    let range = Range::new(0, end);
    let mut label: Vec<TextSegment> = Vec::new();
    push_segment(&mut label, "Soil moisture at ", Rgb::white());
    push_segment(&mut label, "0 to 1", Rgb::new(255, 200, 200));
    push_segment(&mut label, ", ", Rgb::white());
    push_segment(&mut label, "1 to 3", Rgb::new(255, 150, 150));
    push_segment(&mut label, ", ", Rgb::white());
    push_segment(&mut label, "3 to 9", Rgb::new(255, 100, 100));
    push_segment(&mut label, ", ", Rgb::white());
    push_segment(&mut label, "9 to 27", Rgb::new(200, 50, 50));
    push_segment(&mut label, " and ", Rgb::white());
    push_segment(&mut label, "27 to 81", Rgb::new(150, 0, 0));
    push_segment(&mut label, " cm", Rgb::white());
    proof {
        assert(segments_chars(label@) =~= soil_label_chars());
    }
    let ghost d0 = m4@;
    let ghost d1 = m3@;
    let ghost d2 = m2@;
    let ghost d3 = m1@;
    let ghost d4 = m0@;
    let mut series: Vec<PanelSeries> = Vec::new();
    series.push(PanelSeries { style: SeriesStyle::Line(Rgb::new(150, 0, 0)), data: m4 });
    series.push(PanelSeries { style: SeriesStyle::Line(Rgb::new(200, 50, 50)), data: m3 });
    series.push(PanelSeries { style: SeriesStyle::Line(Rgb::new(255, 100, 100)), data: m2 });
    series.push(PanelSeries { style: SeriesStyle::Line(Rgb::new(255, 150, 150)), data: m1 });
    series.push(PanelSeries { style: SeriesStyle::Line(Rgb::new(255, 200, 200)), data: m0 });
    let r = render_panel(
        n,
        range,
        spacing,
        padding,
        MarkIntervals::new(5, 5),
        MarkIntervals::new(1, 2),
        times,
        false,
        &label,
        ((n - 1) * 8) as u32,
        series,
        font,
        header_font,
    );
    proof {
        let pc = n as int;
        let rl = range.spec_len();
        let pr = padding.right as int;
        let fit0 = (d0.len() == pc && 1 <= pr);
        let fit1 = (d1.len() == pc && 1 <= pr);
        let fit2 = (d2.len() == pc && 1 <= pr);
        let fit3 = (d3.len() == pc && 1 <= pr);
        let fit4 = (d4.len() == pc && 1 <= pr);
        assert(series@[0].fits(pc, rl, pr) <==> fit0);
        assert(series@[1].fits(pc, rl, pr) <==> fit1);
        assert(series@[2].fits(pc, rl, pr) <==> fit2);
        assert(series@[3].fits(pc, rl, pr) <==> fit3);
        assert(series@[4].fits(pc, rl, pr) <==> fit4);
        assert((forall|j: int|
            0 <= j < series@.len() ==> (#[trigger] series@[j]).fits(pc, rl, pr)) <==> (fit0 && fit1
            && fit2 && fit3 && fit4)) by {
            if fit0 && fit1 && fit2 && fit3 && fit4 {
                assert forall|j: int| 0 <= j < series@.len() implies (#[trigger] series@[j]).fits(
                    pc,
                    rl,
                    pr,
                ) by {
                    assert(j == 0 || j == 1 || j == 2 || j == 3 || j == 4);
                }
            }
        }
        assert(paint_view(series@) =~= soil_paint(d4, d3, d2, d1, d0)) by {
            assert(paint_view(series@).len() == 5);
            assert(paint_view(series@)[0] == PaintSeries {
                style: PaintStyle::Line(Rgb { red: 150u8, green: 0u8, blue: 0u8 }),
                data: d0,
            });
            assert(paint_view(series@)[1] == PaintSeries {
                style: PaintStyle::Line(Rgb { red: 200u8, green: 50u8, blue: 50u8 }),
                data: d1,
            });
            assert(paint_view(series@)[2] == PaintSeries {
                style: PaintStyle::Line(Rgb { red: 255u8, green: 100u8, blue: 100u8 }),
                data: d2,
            });
            assert(paint_view(series@)[3] == PaintSeries {
                style: PaintStyle::Line(Rgb { red: 255u8, green: 150u8, blue: 150u8 }),
                data: d3,
            });
            assert(paint_view(series@)[4] == PaintSeries {
                style: PaintStyle::Line(Rgb { red: 255u8, green: 200u8, blue: 200u8 }),
                data: d4,
            });
        }
    }
    r
}

} // verus!
