use weather_charts::drawing::Padding;
use weather_charts::forecasts::daily;
use weather_charts::forecasts::hourly;
use weather_charts::forecasts::humidity::absolute_humidity_graph;
use weather_charts::forecasts::soil::soil_moisture_graph;
use weather_charts::text::{Glyph, RasterFont};

fn glyph(ch: char, advance: u32) -> Glyph {
    Glyph { ch, advance, left: 0, top: 0, cols: 1, rows: 1, alpha: vec![255] }
}

fn digit_font(line_height: u32) -> RasterFont {
    let mut glyphs = Vec::new();
    for ch in ['0', '1', '2', '3', '4', '5', '6', '7', '8', '9', '.', '-'] {
        glyphs.push(glyph(ch, 4));
    }
    RasterFont::new(glyphs, line_height)
}

fn base_padding() -> Padding {
    Padding { above: 3, below: 19, left: 21, right: 3 }
}

#[test]
fn hourly_pop_panel_has_the_expected_size() {
    let font = digit_font(14);
    let header = digit_font(18);
    let canvas = hourly::pop_graph(
        vec![50, 80, 0],
        vec![0, 1, 2],
        base_padding(),
        &font,
        &header,
    )
    .unwrap();
    // four slots of eight pixels, minus the final boundary, plus margins
    assert_eq!(canvas.width(), 3 * 8 + 21 + 3);
    // a full percent range in hundredths, one pixel each, plus margins
    // and one header line of the eighteen-pixel font
    assert_eq!(canvas.height(), 10001 + 3 + 18 + 19);
}

#[test]
fn hourly_pop_panel_draws_its_bars() {
    let font = digit_font(14);
    let header = digit_font(18);
    let canvas = hourly::pop_graph(
        vec![50, 80, 0],
        vec![0, 1, 2],
        base_padding(),
        &font,
        &header,
    )
    .unwrap();
    let height = canvas.height();
    let bar = weather_charts::gradient::Rgb { red: 0, green: 180, blue: 255 };
    let black = weather_charts::gradient::Rgb { red: 0, green: 0, blue: 0 };
    // the first bar reaches fifty percent: 5000 pixel rows above the
    // nineteen-pixel bottom margin
    assert_eq!(canvas.get_pixel(22, height - 1 - 19), bar);
    assert_eq!(canvas.get_pixel(22, height - 1 - (19 + 4999)), bar);
    // just above the bar (off any grey grid row or column) it is black
    assert_eq!(canvas.get_pixel(22, height - 1 - (19 + 5001)), black);
    // the third bar is zero: its slot stays black just above the
    // baseline grid line
    assert_eq!(canvas.get_pixel(21 + 2 * 8 + 1, height - 1 - 20), black);
}

#[test]
fn hourly_pop_panel_rejects_probabilities_past_one_hundred() {
    let font = digit_font(14);
    let header = digit_font(18);
    let r = hourly::pop_graph(vec![50, 150], vec![0, 1], base_padding(), &font, &header);
    assert!(r.is_err());
}

#[test]
fn hourly_temperature_panel_follows_the_padded_range() {
    let font = digit_font(14);
    let header = digit_font(18);
    let temp = vec![1000, 2000, 1500];
    let canvas = hourly::temp_graph(
        temp.clone(),
        temp.clone(),
        temp.clone(),
        vec![0, 1, 2],
        base_padding(),
        &font,
        &header,
    )
    .unwrap();
    assert_eq!(canvas.width(), 2 * 8 + 21 + 3);
    // the range 1000 to 2000 already sits on multiples of four:
    // 1001 units, three pixels each
    assert_eq!(canvas.height(), 1001 * 3 + 3 + 18 + 19);
}

#[test]
fn hourly_temperature_panel_rejects_mismatched_series() {
    let font = digit_font(14);
    let header = digit_font(18);
    let r = hourly::temp_graph(
        vec![1000, 2000],
        vec![1000],
        vec![1000, 2000],
        vec![0, 1],
        base_padding(),
        &font,
        &header,
    );
    assert!(r.is_err());
}

#[test]
fn hourly_uvi_panel_renders() {
    let font = digit_font(14);
    let header = digit_font(18);
    let canvas = hourly::uvi_graph(
        vec![250, 800],
        vec![300, 900],
        vec![9, 10],
        base_padding(),
        &font,
        &header,
    )
    .unwrap();
    assert_eq!(canvas.width(), 2 * 8 + 21 + 3);
    // the range tops out at the highest index seen, 900 hundredths
    assert_eq!(canvas.height(), 901 * 10 + 3 + 18 + 19);
}

#[test]
fn hourly_wind_panel_pads_to_multiples_of_five() {
    let font = digit_font(14);
    let header = digit_font(18);
    let canvas = hourly::wind_graph(
        vec![701, 0],
        vec![902, 100],
        vec![0, 1],
        base_padding(),
        &font,
        &header,
    )
    .unwrap();
    // the strongest gust, 902, pads up to 905
    assert_eq!(canvas.height(), 906 * 5 + 3 + 18 + 19);
}

#[test]
fn hourly_precipitation_panel_renders() {
    let font = digit_font(14);
    let header = digit_font(18);
    let canvas = hourly::precipitation_graph(
        vec![0, 230, 10],
        vec![0, 1, 2],
        base_padding(),
        &font,
        &header,
    )
    .unwrap();
    assert_eq!(canvas.height(), 231 * 16 + 3 + 18 + 19);
}

#[test]
fn hourly_humidity_panel_renders() {
    let font = digit_font(14);
    let header = digit_font(18);
    let canvas = hourly::humidity_graph(
        vec![40, 70, 100],
        vec![0, 1, 2],
        base_padding(),
        &font,
        &header,
    )
    .unwrap();
    assert_eq!(canvas.width(), 2 * 8 + 21 + 3);
    assert_eq!(canvas.height(), 10001 + 3 + 18 + 19);
}

#[test]
fn daily_temperature_panel_widens_its_margins() {
    let font = digit_font(14);
    let header = digit_font(14);
    let series = vec![1000, 2000, 1500];
    let canvas = daily::temperature_graph(
        series.clone(),
        series.clone(),
        series.clone(),
        series.clone(),
        vec![1, 2, 3],
        Padding { above: 3, below: 19, left: 21, right: 9 },
        &font,
        &header,
    )
    .unwrap();
    // half a slot is added to each horizontal margin
    assert_eq!(canvas.width(), 2 * 25 + (21 + 12) + (9 + 12));
    assert_eq!(canvas.height(), 1001 * 3 + 3 + 14 + 19);
}

#[test]
fn daily_uv_panel_renders() {
    let font = digit_font(14);
    let header = digit_font(14);
    let canvas = daily::uv_graph(
        vec![420, 0],
        vec![500, 100],
        vec![1, 2],
        Padding { above: 3, below: 19, left: 21, right: 9 },
        &font,
        &header,
    )
    .unwrap();
    assert_eq!(canvas.width(), 2 * 25 + 21 + 9);
    assert_eq!(canvas.height(), 501 * 10 + 3 + 14 + 19);
}

#[test]
fn daily_wind_panel_renders() {
    let font = digit_font(14);
    let header = digit_font(14);
    let canvas = daily::wind_graph(
        vec![700, 0],
        vec![900, 100],
        vec![1, 2],
        Padding { above: 3, below: 19, left: 21, right: 9 },
        &font,
        &header,
    )
    .unwrap();
    assert_eq!(canvas.height(), 901 * 5 + 3 + 14 + 19);
}

#[test]
fn daily_precipitation_panel_pads_to_multiples_of_twenty_five() {
    let font = digit_font(14);
    let header = digit_font(14);
    let canvas = daily::precipitation_graph(
        vec![0, 230, 10],
        vec![1, 2, 3],
        Padding { above: 3, below: 19, left: 21, right: 9 },
        &font,
        &header,
    )
    .unwrap();
    // 230 pads up to 250
    assert_eq!(canvas.height(), 251 + 3 + 14 + 19);
}

#[test]
fn daily_pop_panel_needs_equal_series() {
    let font = digit_font(14);
    let header = digit_font(14);
    let pad = Padding { above: 3, below: 19, left: 21, right: 9 };
    let ok = daily::pop_graph(
        vec![10, 20],
        vec![30, 40],
        vec![50, 60],
        vec![1, 2],
        pad,
        &font,
        &header,
    );
    assert!(ok.is_ok());
    let bad = daily::pop_graph(
        vec![10],
        vec![30, 40],
        vec![50, 60],
        vec![1, 2],
        pad,
        &font,
        &header,
    );
    assert!(bad.is_err());
}

#[test]
fn soil_panel_keeps_a_readable_range_when_dry() {
    let font = digit_font(14);
    let header = digit_font(18);
    let flat = vec![0, 0, 0];
    let canvas = soil_moisture_graph(
        flat.clone(),
        flat.clone(),
        flat.clone(),
        flat.clone(),
        flat.clone(),
        vec![0, 1, 2],
        base_padding(),
        &font,
        &header,
    )
    .unwrap();
    // an all-dry forecast still spans half a unit of moisture; the
    // long depth-band label wraps onto its second line
    assert_eq!(canvas.height(), 5001 * 3 + 3 + 2 * 18 + 19);
}

#[test]
fn absolute_humidity_panel_pads_to_multiples_of_four() {
    let font = digit_font(14);
    let header = digit_font(18);
    let canvas = absolute_humidity_graph(
        vec![950, 1210, 1100],
        vec![0, 1, 2],
        base_padding(),
        &font,
        &header,
    )
    .unwrap();
    // 1210 pads up to 1212
    assert_eq!(canvas.height(), 1213 * 3 + 3 + 18 + 19);
}


#[test]
fn uvi_panel_draws_bars_over_the_clear_sky_marks() {
    let font = digit_font(14);
    let header = digit_font(18);
    // the clear-sky mark at one unit lies inside the two-unit bar
    let canvas = hourly::uvi_graph(vec![2], vec![1], vec![0], base_padding(), &font, &header)
        .unwrap();
    let height = canvas.height();
    // inside the bar at the mark's height (an off-grid row and column):
    // the bar's gradient colour, not the mark colour
    let p = canvas.get_pixel(22, height - 1 - (19 + 11));
    assert_ne!(p, weather_charts::gradient::Rgb { red: 118, green: 215, blue: 234 });
    assert_eq!(p.blue, 33);
}

#[test]
fn soil_panel_draws_shallow_bands_over_deep_ones() {
    let font = digit_font(14);
    let header = digit_font(18);
    // the two flat series coincide: the shallow band, drawn last, wins
    let level = vec![3, 3];
    let canvas = soil_moisture_graph(
        level.clone(),
        level.clone(),
        level.clone(),
        level.clone(),
        level.clone(),
        vec![0, 1],
        base_padding(),
        &font,
        &header,
    )
    .unwrap();
    let height = canvas.height();
    // the data-point mark at the first point carries the shallowest
    // band's colour
    assert_eq!(
        canvas.get_pixel(21, height - 1 - (19 + 3 * 3)),
        weather_charts::gradient::Rgb { red: 255, green: 200, blue: 200 }
    );
}
