use weather_charts::gradient::Rgb;
use weather_charts::text::{
    chars_width, fixed_label_chars, tick_label_chars, Glyph, RasterFont, TextBox, TextSegment,
};

fn white() -> Rgb {
    Rgb { red: 255, green: 255, blue: 255 }
}

fn glyph(ch: char, advance: u32) -> Glyph {
    Glyph { ch, advance, left: 0, top: 0, cols: 1, rows: 1, alpha: vec![255] }
}

fn small_font() -> RasterFont {
    RasterFont::new(vec![glyph('a', 3), glyph('b', 3), glyph(' ', 3)], 5)
}

#[test]
fn text_box_keeps_one_line_when_it_fits() {
    let font = small_font();
    let segments = vec![TextSegment::new("ab", white()), TextSegment::new("a", white())];
    let b = TextBox::new(&segments, &font, 10, 2);
    assert_eq!(b.height(), 5);
}

#[test]
fn text_box_wraps_at_the_box_width() {
    let font = small_font();
    let segments = vec![TextSegment::new("aaaa", white())];
    // four glyphs of width three pass ten pixels, so one wraps
    let b = TextBox::new(&segments, &font, 10, 2);
    assert_eq!(b.height(), 10);
}

#[test]
fn text_box_truncates_past_the_line_budget() {
    let font = small_font();
    let segments = vec![TextSegment::new("aaaaaaaaaa", white())];
    let b = TextBox::new(&segments, &font, 10, 2);
    assert_eq!(b.height(), 10);
    let b = TextBox::new(&segments, &font, 10, 1);
    assert_eq!(b.height(), 5);
}

#[test]
fn text_box_keeps_spaces_verbatim() {
    let font = small_font();
    // three spaces count their full width: nine plus three pixels wrap
    let spaced = vec![TextSegment::new("a   ", white())];
    let b = TextBox::new(&spaced, &font, 9, 2);
    assert_eq!(b.height(), 10);
}

#[test]
fn unknown_characters_take_no_space() {
    let font = small_font();
    let segments = vec![TextSegment::new("a??????????????a", white())];
    let b = TextBox::new(&segments, &font, 10, 2);
    assert_eq!(b.height(), 5);
}

#[test]
fn chars_width_sums_the_advances() {
    let font = small_font();
    assert_eq!(chars_width(&vec!['a', 'b', ' '], &font), 9);
    assert_eq!(chars_width(&vec!['?'], &font), 0);
    assert_eq!(chars_width(&Vec::new(), &font), 0);
}

#[test]
fn fixed_labels_show_whole_and_fraction() {
    assert_eq!(fixed_label_chars(1000), vec!['1', '0']);
    assert_eq!(fixed_label_chars(1004), vec!['1', '0', '.', '0', '4']);
    assert_eq!(fixed_label_chars(-250), vec!['-', '2', '.', '5', '0']);
    assert_eq!(fixed_label_chars(0), vec!['0']);
    assert_eq!(fixed_label_chars(50), vec!['0', '.', '5', '0']);
}

#[test]
fn tick_labels_are_plain_decimals() {
    assert_eq!(tick_label_chars(0), vec!['0']);
    assert_eq!(tick_label_chars(7), vec!['7']);
    assert_eq!(tick_label_chars(23), vec!['2', '3']);
    assert_eq!(tick_label_chars(255), vec!['2', '5', '5']);
}
