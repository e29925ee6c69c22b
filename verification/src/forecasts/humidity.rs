//! The absolute-humidity forecast panel.

use crate::canvas::Canvas;
use crate::chart::{chart_height, chart_width};
use crate::drawing::{MarkIntervals, Padding, Spacing};
use crate::error::Error;
use crate::gradient::Rgb;
use crate::panel::{
    label_height, layout_ok, lemma_spec_max_bounds, max_of, padded_above, padding_small,
    paint_view, panel_chrome_touched, push_segment, render_panel, series_paint, spec_max,
    values_small, PaintSeries, PaintStyle, PanelSeries, SeriesStyle,
};
use crate::range::{next_mult, next_multiple, Range};
use crate::text::{segments_chars, RasterFont, TextSegment};
use vstd::prelude::*;

verus! {

/// What the absolute-humidity panel's series paint: one line.
pub open spec fn absolute_humidity_paint(humidity: Seq<i32>) -> Seq<PaintSeries> {
    seq![
        PaintSeries {
            style: PaintStyle::Line(Rgb { red: 0u8, green: 148u8, blue: 255u8 }),
            data: humidity,
        },
    ]
}

/// The absolute-humidity panel: one line on a range from zero, padded
/// up to the next multiple of four. Values are grams per cubic metre
/// times one hundred.
pub fn absolute_humidity_graph(
    humidity: Vec<i32>,
    times: Vec<u8>,
    padding: Padding,
    font: &RasterFont,
    header_font: &RasterFont,
) -> (r: Result<Canvas, Error>)
    requires
        font.wf(),
        header_font.wf(),
        values_small(humidity@),
        padding_small(padding),
        1 <= humidity@.len() <= 0x10_0000,
    ensures
        r is Ok <==> layout_ok(
            humidity@.len() as int,
            next_mult(spec_max(humidity@, 0), 4) + 1,
            Spacing { horizontal: 8, vertical: 3 },
            padding,
            "Absolute humidity"@,
            (humidity@.len() as int - 1) * 8,
            header_font,
        ) && 1 <= padding.right,
        r matches Ok(c) ==> c.wf() && c.spec_width() == chart_width(
            humidity@.len() as int,
            Spacing { horizontal: 8, vertical: 3 },
            padding,
        ) && c.spec_height() == chart_height(
            next_mult(spec_max(humidity@, 0), 4) + 1,
            Spacing { horizontal: 8, vertical: 3 },
            padding,
        ) + label_height(
            header_font,
            "Absolute humidity"@,
            (humidity@.len() as int - 1) * 8,
        ),
        r matches Ok(c) ==> forall|x: int, yb: int|
            0 <= x < c.spec_width() && 0 <= yb < c.spec_height() && series_paint(
                absolute_humidity_paint(humidity@),
                next_mult(spec_max(humidity@, 0), 4) + 1,
                Spacing { horizontal: 8, vertical: 3 },
                padded_above(
                    padding,
                    header_font,
                    "Absolute humidity"@,
                    (humidity@.len() as int - 1) * 8,
                ),
                x,
                yb,
            ) is Some ==> #[trigger] c.spec_pixel_up(x, yb) == series_paint(
                absolute_humidity_paint(humidity@),
                next_mult(spec_max(humidity@, 0), 4) + 1,
                Spacing { horizontal: 8, vertical: 3 },
                padded_above(
                    padding,
                    header_font,
                    "Absolute humidity"@,
                    (humidity@.len() as int - 1) * 8,
                ),
                x,
                yb,
            )->0,
        r matches Ok(c) ==> forall|x: int, y: int|
            0 <= x < c.spec_width() && 0 <= y < c.spec_height() && !panel_chrome_touched(
                humidity@.len() as int,
                next_mult(spec_max(humidity@, 0), 4) + 1,
                Spacing { horizontal: 8, vertical: 3 },
                padding,
                "Absolute humidity"@,
                (humidity@.len() as int - 1) * 8,
                2,
                1,
                4,
                header_font,
                font,
                x,
                y,
            ) && series_paint(
                absolute_humidity_paint(humidity@),
                next_mult(spec_max(humidity@, 0), 4) + 1,
                Spacing { horizontal: 8, vertical: 3 },
                padded_above(
                    padding,
                    header_font,
                    "Absolute humidity"@,
                    (humidity@.len() as int - 1) * 8,
                ),
                x,
                c.spec_height() - 1 - y,
            ) is None ==> #[trigger] c.spec_pixel(x, y) == (Rgb {
                red: 0u8,
                green: 0u8,
                blue: 0u8,
            }),
        r matches Err(e) ==> e is Unfriendly,
{
    let spacing = Spacing { horizontal: 8, vertical: 3 };
    let n = humidity.len();
    proof {
        lemma_spec_max_bounds(humidity@, 0);
    }
    let max_humidity = max_of(&humidity, 0);
    let end = next_multiple(max_humidity, 4);
    let range = Range::new(0, end);
    let mut label: Vec<TextSegment> = Vec::new();
    push_segment(&mut label, "Absolute humidity", Rgb::new(0, 148, 255));
    proof {
        assert(segments_chars(label@) =~= "Absolute humidity"@);
    }
    let ghost d0 = humidity@;
    let mut series: Vec<PanelSeries> = Vec::new();
    series.push(PanelSeries { style: SeriesStyle::Line(Rgb::new(0, 148, 255)), data: humidity });
    let r = render_panel(
        n,
        range,
        spacing,
        padding,
        MarkIntervals::new(2, 4),
        MarkIntervals::new(1, 2),
        times,
        false,
        &label,
        ((n - 1) * 8) as u32,
        series,
        font,
        header_font,
    );
    proof {
        let pc = n as int;
        let rl = range.spec_len();
        let pr = padding.right as int;
        let fit0 = (d0.len() == pc && 1 <= pr);
        assert(series@[0].fits(pc, rl, pr) <==> fit0);
        assert((forall|j: int|
            0 <= j < series@.len() ==> (#[trigger] series@[j]).fits(pc, rl, pr)) <==> fit0) by {
            if fit0 {
                assert forall|j: int| 0 <= j < series@.len() implies (#[trigger] series@[j]).fits(
                    pc,
                    rl,
                    pr,
                ) by {
                    assert(j == 0);
                }
            }
        }
        assert(paint_view(series@) =~= absolute_humidity_paint(humidity@)) by {
            assert(paint_view(series@).len() == 1);
            assert(paint_view(series@)[0] == PaintSeries {
                style: PaintStyle::Line(Rgb { red: 0u8, green: 148u8, blue: 255u8 }),
                data: d0,
            });
        }
    }
    r
}

} // verus!
