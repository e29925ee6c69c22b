//! Coloured text runs laid out into a fixed-width box.
//!
//! The library draws text from a [`RasterFont`]: a table of glyphs
//! already rasterized at one pixel scale, each an alpha bitmap with an
//! advance width. A [`TextBox`] lays the characters of its segments out
//! left to right in order, wrapping to the next line when a glyph would
//! pass the box width and truncating once the line budget is spent.
//! Spaces are glyphs like any other: nothing is collapsed or trimmed,
//! so a space inside a segment keeps its width. Characters the font has
//! no glyph for take no space. A glyph wider than the whole box can
//! never fit and is skipped.

use crate::gradient::Rgb;
use vstd::prelude::*;

verus! {

/// One pre-rasterized glyph: an alpha bitmap (row-major, top row
/// first) and its layout metrics. The pen moves `advance` pixels; the
/// bitmap's ink sits `left` pixels right of the pen and `top` pixels
/// below the line's top edge.
#[derive(Debug)]
pub struct Glyph {
    pub ch: char,
    pub advance: u32,
    pub left: u32,
    pub top: u32,
    pub cols: u32,
    pub rows: u32,
    pub alpha: Vec<u8>,
}

impl Glyph {
    /// The bitmap matches its dimensions and the ink stays inside the
    /// advance box and the line height, so layout bounds also bound
    /// drawing.
    pub open spec fn wf(&self, line_height: int) -> bool {
        &&& self.alpha@.len() == self.cols * self.rows
        &&& self.left + self.cols <= self.advance
        &&& self.top + self.rows <= line_height
    }
}

/// The position of `c` in a glyph table: the first entry with that
/// character.
pub open spec fn glyph_index_in(glyphs: Seq<Glyph>, c: char) -> Option<int>
    decreases glyphs.len(),
{
    if glyphs.len() == 0 {
        None
    } else if glyphs[0].ch == c {
        Some(0int)
    } else {
        match glyph_index_in(glyphs.skip(1), c) {
            Some(i) => Some(i + 1),
            None => None,
        }
    }
}

/// A scan that found no match among the first `i` entries finds the
/// table's match at or past `i`.
proof fn lemma_glyph_index_scan(glyphs: Seq<Glyph>, c: char, i: int)
    requires
        0 <= i <= glyphs.len(),
        forall|j: int| 0 <= j < i ==> (#[trigger] glyphs[j]).ch != c,
    ensures
        glyph_index_in(glyphs, c) == match glyph_index_in(glyphs.skip(i), c) {
            Some(m) => Some(m + i),
            None => None::<int>,
        },
    decreases i,
{
    if i > 0 {
        lemma_glyph_index_scan(glyphs.skip(1), c, i - 1);
        assert(glyphs.skip(1).skip(i - 1) =~= glyphs.skip(i));
        assert forall|j: int| 0 <= j < i - 1 implies (#[trigger] glyphs.skip(1)[j]).ch != c by {
            assert(glyphs[j + 1].ch != c);
        }
    } else {
        assert(glyphs.skip(0) =~= glyphs);
    }
}

/// The match found for `c` is an entry holding `c`.
pub proof fn lemma_glyph_index_valid(glyphs: Seq<Glyph>, c: char)
    requires
        glyph_index_in(glyphs, c) is Some,
    ensures
        0 <= glyph_index_in(glyphs, c)->0 < glyphs.len(),
        glyphs[glyph_index_in(glyphs, c)->0].ch == c,
    decreases glyphs.len(),
{
    if glyphs.len() > 0 && glyphs[0].ch != c {
        lemma_glyph_index_valid(glyphs.skip(1), c);
    }
}

/// A font rasterized at one pixel scale: a glyph table and the line
/// height all its glyphs fit in.
#[derive(Debug)]
pub struct RasterFont {
    glyphs: Vec<Glyph>,
    line_height: u32,
}

impl RasterFont {
    pub closed spec fn spec_glyphs(&self) -> Seq<Glyph> {
        self.glyphs@
    }

    pub closed spec fn spec_line_height(&self) -> u32 {
        self.line_height
    }

    /// Every glyph fits its advance and the line height, and the
    /// metrics are small enough that layout sums stay far from any
    /// machine limit.
    pub open spec fn wf(&self) -> bool {
        &&& 1 <= self.spec_line_height() <= 0xffff
        &&& forall|i: int|
            0 <= i < self.spec_glyphs().len() ==> (#[trigger] self.spec_glyphs()[i]).wf(
                self.spec_line_height() as int,
            ) && self.spec_glyphs()[i].advance <= 0xffff
    }

    /// The pen advance for `c`; characters without a glyph take no
    /// space.
    pub open spec fn spec_advance(&self, c: char) -> int {
        match glyph_index_in(self.spec_glyphs(), c) {
            Some(i) => self.spec_glyphs()[i].advance as int,
            None => 0,
        }
    }

    pub fn new(glyphs: Vec<Glyph>, line_height: u32) -> (r: RasterFont)
        requires
            1 <= line_height <= 0xffff,
            forall|i: int|
                0 <= i < glyphs@.len() ==> (#[trigger] glyphs@[i]).wf(line_height as int)
                    && glyphs@[i].advance <= 0xffff,
        ensures
            r.wf(),
            r.spec_glyphs() == glyphs@,
            r.spec_line_height() == line_height,
    {
        RasterFont { glyphs, line_height }
    }

    #[verifier::when_used_as_spec(spec_line_height)]
    pub fn line_height(&self) -> (r: u32)
        ensures
            r == self.spec_line_height(),
    {
        self.line_height
    }

    /// Find the glyph table entry for `c`.
    pub fn find_glyph(&self, c: char) -> (r: Option<usize>)
        ensures
            match r {
                Some(i) => glyph_index_in(self.spec_glyphs(), c) == Some(i as int),
                None => glyph_index_in(self.spec_glyphs(), c) is None,
            },
    {
        let n = self.glyphs.len();
        let mut i: usize = 0;
        while i < n
            invariant
                n == self.spec_glyphs().len(),
                i <= n,
                forall|j: int| 0 <= j < i ==> (#[trigger] self.spec_glyphs()[j]).ch != c,
            decreases n - i,
        {
            if self.glyphs[i].ch == c {
                proof {
                    lemma_glyph_index_scan(self.spec_glyphs(), c, i as int);
                }
                return Some(i);
            }
            i += 1;
        }
        proof {
            lemma_glyph_index_scan(self.spec_glyphs(), c, n as int);
            assert(self.spec_glyphs().skip(n as int) =~= Seq::<Glyph>::empty());
        }
        None
    }

    /// Borrow glyph `i`.
    pub fn glyph(&self, i: usize) -> (r: &Glyph)
        requires
            i < self.spec_glyphs().len(),
        ensures
            *r == self.spec_glyphs()[i as int],
    {
        &self.glyphs[i]
    }
}

/// The character for one decimal digit.
pub open spec fn spec_digit_char(d: int) -> char {
    if d == 0 {
        '0'
    } else if d == 1 {
        '1'
    } else if d == 2 {
        '2'
    } else if d == 3 {
        '3'
    } else if d == 4 {
        '4'
    } else if d == 5 {
        '5'
    } else if d == 6 {
        '6'
    } else if d == 7 {
        '7'
    } else if d == 8 {
        '8'
    } else {
        '9'
    }
}

/// The decimal digits of a non-negative number, most significant first.
pub open spec fn spec_decimal_digits(v: int) -> Seq<char>
    recommends
        v >= 0,
    decreases v,
{
    if v < 10 {
        seq![spec_digit_char(v)]
    } else {
        spec_decimal_digits(v / 10).push(spec_digit_char(v % 10))
    }
}

/// An axis label for a fixed-point value (the measured value times
/// 100): a minus sign for negative values, the whole part, and the two
/// fraction digits after a point when they are not both zero.
pub open spec fn spec_fixed_label(value: int) -> Seq<char> {
    let m = if value < 0 {
        -value
    } else {
        value
    };
    let sign: Seq<char> = if value < 0 {
        seq!['-']
    } else {
        Seq::empty()
    };
    let frac: Seq<char> = if m % 100 == 0 {
        Seq::empty()
    } else {
        seq!['.', spec_digit_char((m % 100) / 10), spec_digit_char(m % 10)]
    };
    sign + spec_decimal_digits(m / 100) + frac
}

fn digit_char(d: u32) -> (c: char)
    requires
        d < 10,
    ensures
        c == spec_digit_char(d as int),
{
    match d {
        0 => '0',
        1 => '1',
        2 => '2',
        3 => '3',
        4 => '4',
        5 => '5',
        6 => '6',
        7 => '7',
        8 => '8',
        _ => '9',
    }
}

/// Append the decimal digits of `v`, most significant first.
fn push_decimal_digits(v: u32, out: &mut Vec<char>)
    ensures
        final(out)@ == old(out)@ + spec_decimal_digits(v as int),
    decreases v,
{
    if v >= 10 {
        push_decimal_digits(v / 10, out);
    }
    out.push(digit_char(v % 10));
    proof {
        if v < 10 {
            assert(old(out)@.push(spec_digit_char(v as int)) =~= old(out)@ + spec_decimal_digits(
                v as int,
            ));
        } else {
            assert((old(out)@ + spec_decimal_digits(v as int / 10)).push(
                spec_digit_char(v as int % 10),
            ) =~= old(out)@ + spec_decimal_digits(v as int));
        }
    }
}

/// The text of an axis label for a fixed-point value.
pub fn fixed_label_chars(value: i32) -> (r: Vec<char>)
    ensures
        r@ == spec_fixed_label(value as int),
{
    let mut out: Vec<char> = Vec::new();
    let m: u32 = if value < 0 {
        (-(value as i64)) as u32
    } else {
        value as u32
    };
    if value < 0 {
        out.push('-');
    }
    push_decimal_digits(m / 100, &mut out);
    if m % 100 != 0 {
        out.push('.');
        out.push(digit_char((m % 100) / 10));
        out.push(digit_char(m % 10));
    }
    proof {
        assert(out@ =~= spec_fixed_label(value as int));
    }
    out
}

/// A number under a thousand has at most three digits.
proof fn lemma_small_digits_len(v: int)
    requires
        0 <= v < 1000,
    ensures
        spec_decimal_digits(v).len() <= 3,
{
    if v >= 10 {
        vstd::arithmetic::div_mod::lemma_div_pos_is_pos(v, 10);
        vstd::arithmetic::div_mod::lemma_div_is_ordered(v, 999, 10);
        if v >= 100 {
            vstd::arithmetic::div_mod::lemma_div_is_ordered(100, v, 10);
            vstd::arithmetic::div_mod::lemma_div_pos_is_pos(v / 10, 10);
            vstd::arithmetic::div_mod::lemma_div_is_ordered(v / 10, 99, 10);
            assert(spec_decimal_digits(v / 10 / 10).len() == 1);
            assert(spec_decimal_digits(v / 10).len() == 2);
        } else {
            vstd::arithmetic::div_mod::lemma_div_is_ordered(v, 99, 10);
            assert(spec_decimal_digits(v / 10).len() == 1);
        }
    }
}

/// The text of a tick label for a small whole number, such as an hour
/// of the day or a day of the month.
pub fn tick_label_chars(value: u8) -> (r: Vec<char>)
    ensures
        r@ == spec_decimal_digits(value as int),
        r@.len() <= 3,
{
    proof {
        lemma_small_digits_len(value as int);
    }
    let mut out: Vec<char> = Vec::new();
    push_decimal_digits(value as u32, &mut out);
    proof {
        assert(out@ =~= spec_decimal_digits(value as int));
    }
    out
}

/// The pen width of a character sequence: the sum of its advances.
pub open spec fn spec_chars_width(font: &RasterFont, chars: Seq<char>) -> int
    decreases chars.len(),
{
    if chars.len() == 0 {
        0
    } else {
        font.spec_advance(chars[0]) + spec_chars_width(font, chars.skip(1))
    }
}

/// Measure a character sequence in the given font.
pub fn chars_width(chars: &Vec<char>, font: &RasterFont) -> (w: u64)
    requires
        font.wf(),
        chars@.len() <= 0xffff_ffff,
    ensures
        w == spec_chars_width(font, chars@),
{
    let n = chars.len();
    let mut w: u64 = 0;
    let mut i: usize = 0;
    proof {
        assert(chars@.skip(0) =~= chars@);
    }
    while i < n
        invariant
            font.wf(),
            n == chars@.len(),
            n <= 0xffff_ffff,
            i <= n,
            w <= 0xffff * (i as u64),
            w + spec_chars_width(font, chars@.skip(i as int)) == spec_chars_width(font, chars@),
        decreases n - i,
    {
        let c = chars[i];
        let a: u32 = match font.find_glyph(c) {
            Some(g) => {
                proof {
                    lemma_glyph_index_valid(font.spec_glyphs(), c);
                }
                font.glyph(g).advance
            },
            None => 0,
        };
        proof {
            assert(a as int == font.spec_advance(c));
            assert(chars@.skip(i as int)[0] == chars@[i as int]);
            assert(chars@.skip(i as int).skip(1) =~= chars@.skip(i as int + 1));
            assert(0xffff * (i as u64 + 1) == 0xffff * (i as u64) + 0xffff) by (nonlinear_arith);
        }
        w = w + a as u64;
        i += 1;
    }
    proof {
        assert(chars@.skip(n as int) =~= Seq::<char>::empty());
    }
    w
}

/// A run of text in one colour.
#[derive(Debug)]
pub struct TextSegment {
    pub text: String,
    pub colour: Rgb,
}

impl TextSegment {
    pub fn new(text: &str, colour: Rgb) -> (r: TextSegment)
        ensures
            r.text@ == text@,
            r.colour == colour,
    {
        TextSegment { text: text.to_owned(), colour }
    }

    /// A white run, the colour of connective words between series names.
    pub fn white(text: &str) -> (r: TextSegment)
        ensures
            r.text@ == text@,
            r.colour == (Rgb { red: 255u8, green: 255u8, blue: 255u8 }),
    {
        TextSegment { text: text.to_owned(), colour: Rgb { red: 255, green: 255, blue: 255 } }
    }
}

/// The characters of all segments, in order.
pub open spec fn segments_chars(segments: Seq<TextSegment>) -> Seq<char>
    decreases segments.len(),
{
    if segments.len() == 0 {
        Seq::empty()
    } else {
        segments[0].text@ + segments_chars(segments.skip(1))
    }
}

/// The zero-based index of the last line the greedy layout uses, given
/// the pen position and line already reached: a glyph wider than the
/// whole box is skipped; one that fits the current line advances the
/// pen; otherwise a new line starts if the budget allows, and the rest
/// of the text is dropped if not.
pub open spec fn spec_last_line(
    font: &RasterFont,
    chars: Seq<char>,
    max_width: int,
    pen: int,
    line: int,
    budget: int,
) -> int
    decreases chars.len(),
{
    if chars.len() == 0 {
        line
    } else {
        let a = font.spec_advance(chars[0]);
        if a > max_width {
            spec_last_line(font, chars.skip(1), max_width, pen, line, budget)
        } else if pen + a <= max_width {
            spec_last_line(font, chars.skip(1), max_width, pen + a, line, budget)
        } else if line + 1 < budget {
            spec_last_line(font, chars.skip(1), max_width, a, line + 1, budget)
        } else {
            line
        }
    }
}

/// A run of characters, each carrying the run's colour.
pub open spec fn chars_with_colour(text: Seq<char>, colour: Rgb) -> Seq<(char, Rgb)> {
    text.map_values(|c: char| (c, colour))
}

/// The characters of all segments in order, each with its segment's
/// colour.
pub open spec fn segment_pairs(segments: Seq<TextSegment>) -> Seq<(char, Rgb)>
    decreases segments.len(),
{
    if segments.len() == 0 {
        Seq::empty()
    } else {
        chars_with_colour(segments[0].text@, segments[0].colour) + segment_pairs(segments.skip(1))
    }
}

/// The glyphs the greedy layout places, in order, given the pen
/// position and line already reached: a glyph wider than the whole box
/// is skipped; one that fits the current line is placed at the pen;
/// otherwise a new line starts if the budget allows, and the rest of
/// the text is dropped if not.
pub open spec fn spec_layout(
    font: &RasterFont,
    pairs: Seq<(char, Rgb)>,
    max_width: int,
    pen: int,
    line: int,
    budget: int,
) -> Seq<PlacedGlyph>
    decreases pairs.len(),
{
    if pairs.len() == 0 {
        Seq::empty()
    } else {
        let c = pairs[0].0;
        let colour = pairs[0].1;
        let a = font.spec_advance(c);
        if a > max_width {
            spec_layout(font, pairs.skip(1), max_width, pen, line, budget)
        } else if pen + a <= max_width {
            seq![PlacedGlyph { ch: c, colour, x: pen as u32, line: line as u32 }] + spec_layout(
                font,
                pairs.skip(1),
                max_width,
                pen + a,
                line,
                budget,
            )
        } else if line + 1 < budget {
            seq![PlacedGlyph { ch: c, colour, x: 0u32, line: (line + 1) as u32 }] + spec_layout(
                font,
                pairs.skip(1),
                max_width,
                a,
                line + 1,
                budget,
            )
        } else {
            Seq::empty()
        }
    }
}

/// One glyph the layout placed: which character, in which colour, at
/// which pen position on which line.
#[derive(Debug, Clone, Copy)]
pub struct PlacedGlyph {
    pub ch: char,
    pub colour: Rgb,
    pub x: u32,
    pub line: u32,
}

/// Segments laid out into a box of a fixed width: the glyph placements
/// plus the resulting line count and pixel height.
#[derive(Debug)]
pub struct TextBox {
    placed: Vec<PlacedGlyph>,
    line_count: u32,
    line_height: u32,
    max_width: u32,
    height: u32,
}

impl TextBox {
    pub closed spec fn spec_placed(&self) -> Seq<PlacedGlyph> {
        self.placed@
    }

    pub closed spec fn spec_line_count(&self) -> u32 {
        self.line_count
    }

    pub closed spec fn spec_line_height(&self) -> u32 {
        self.line_height
    }

    pub closed spec fn spec_max_width(&self) -> u32 {
        self.max_width
    }

    pub closed spec fn spec_height(&self) -> u32 {
        self.height
    }

    /// The layout is consistent with the font it was made from: every
    /// placement keeps its glyph's advance inside the box width and
    /// sits on a counted line.
    pub open spec fn wf(&self, font: &RasterFont) -> bool {
        &&& self.spec_line_height() == font.spec_line_height()
        &&& 1 <= self.spec_line_count() <= 0xffff
        &&& self.spec_height() == self.spec_line_count() * self.spec_line_height()
        &&& forall|i: int|
            0 <= i < self.spec_placed().len() ==> (#[trigger] self.spec_placed()[i]).x
                + font.spec_advance(self.spec_placed()[i].ch) <= self.spec_max_width()
                && self.spec_placed()[i].line < self.spec_line_count()
    }

    pub fn placed_len(&self) -> (r: usize)
        ensures
            r == self.spec_placed().len(),
    {
        self.placed.len()
    }

    pub fn placed(&self, i: usize) -> (r: PlacedGlyph)
        requires
            i < self.spec_placed().len(),
        ensures
            r == self.spec_placed()[i as int],
    {
        self.placed[i]
    }

    pub fn line_height(&self) -> (r: u32)
        ensures
            r == self.spec_line_height(),
    {
        self.line_height
    }

    pub fn max_width(&self) -> (r: u32)
        ensures
            r == self.spec_max_width(),
    {
        self.max_width
    }

    /// The pixel height the composer must reserve for the box.
    pub fn height(&self) -> (r: u32)
        ensures
            r == self.spec_height(),
    {
        self.height
    }

    /// Lay the segments out in order into a box `max_width` pixels wide
    /// with up to `line_budget` lines.
    pub fn new(
        segments: &Vec<TextSegment>,
        font: &RasterFont,
        max_width: u32,
        line_budget: u32,
    ) -> (r: TextBox)
        requires
            font.wf(),
            1 <= line_budget <= 0xffff,
        ensures
            r.wf(font),
            r.spec_max_width() == max_width,
            r.spec_line_count() == 1 + spec_last_line(
                font,
                segments_chars(segments@),
                max_width as int,
                0,
                0,
                line_budget as int,
            ),
            r.spec_placed() == spec_layout(
                font,
                segment_pairs(segments@),
                max_width as int,
                0,
                0,
                line_budget as int,
            ),
            r.spec_height() == r.spec_line_count() * font.spec_line_height(),
    {
        let mut placed: Vec<PlacedGlyph> = Vec::new();
        let mut pen: u32 = 0;
        let mut line: u32 = 0;
        let mut stopped = false;
        let ghost all = segments_chars(segments@);
        let ghost all_pairs = segment_pairs(segments@);
        let ghost full = spec_layout(
            font,
            all_pairs,
            max_width as int,
            0,
            0,
            line_budget as int,
        );
        let nseg = segments.len();
        let mut s: usize = 0;
        proof {
            assert(segments@.skip(0) =~= segments@);
            assert(Seq::<PlacedGlyph>::empty() + full =~= full);
        }
        while s < nseg
            invariant
                font.wf(),
                1 <= line_budget <= 0xffff,
                nseg == segments@.len(),
                s <= nseg,
                pen <= max_width,
                line < line_budget,
                stopped ==> line + 1 == line_budget,
                all_pairs == segment_pairs(segments@),
                full == spec_layout(font, all_pairs, max_width as int, 0, 0, line_budget as int),
                spec_last_line(font, all, max_width as int, 0, 0, line_budget as int) == (
                if stopped {
                    line as int
                } else {
                    spec_last_line(
                        font,
                        segments_chars(segments@.skip(s as int)),
                        max_width as int,
                        pen as int,
                        line as int,
                        line_budget as int,
                    )
                }),
                if stopped {
                    placed@ == full
                } else {
                    placed@ + spec_layout(
                        font,
                        segment_pairs(segments@.skip(s as int)),
                        max_width as int,
                        pen as int,
                        line as int,
                        line_budget as int,
                    ) == full
                },
                forall|i: int|
                    0 <= i < placed@.len() ==> (#[trigger] placed@[i]).x + font.spec_advance(
                        placed@[i].ch,
                    ) <= max_width && placed@[i].line <= line,
            decreases nseg - s,
        {
            let text = &segments[s].text;
            let colour = segments[s].colour;
            let tlen = text.as_str().unicode_len();
            let ghost rest = segments_chars(segments@.skip(s as int + 1));
            let ghost rest_pairs = segment_pairs(segments@.skip(s as int + 1));
            proof {
                assert(segments@.skip(s as int).skip(1) =~= segments@.skip(s as int + 1));
                assert(segments_chars(segments@.skip(s as int)) == text@ + rest);
                assert(text@.skip(0) + rest =~= text@ + rest);
                assert(segment_pairs(segments@.skip(s as int)) == chars_with_colour(text@, colour)
                    + rest_pairs);
                assert(chars_with_colour(text@.skip(0), colour) + rest_pairs =~= chars_with_colour(
                    text@,
                    colour,
                ) + rest_pairs) by {
                    assert(text@.skip(0) =~= text@);
                }
            }
            let mut i: usize = 0;
            while i < tlen
                invariant
                    font.wf(),
                    1 <= line_budget <= 0xffff,
                    s < nseg,
                    nseg == segments@.len(),
                    tlen == text@.len(),
                    text == segments@[s as int].text,
                    colour == segments@[s as int].colour,
                    rest == segments_chars(segments@.skip(s as int + 1)),
                    i <= tlen,
                    pen <= max_width,
                    line < line_budget,
                    stopped ==> line + 1 == line_budget,
                    all_pairs == segment_pairs(segments@),
                    full == spec_layout(font, all_pairs, max_width as int, 0, 0, line_budget as int),
                    rest_pairs == segment_pairs(segments@.skip(s as int + 1)),
                    spec_last_line(font, all, max_width as int, 0, 0, line_budget as int) == (
                    if stopped {
                        line as int
                    } else {
                        spec_last_line(
                            font,
                            text@.skip(i as int) + rest,
                            max_width as int,
                            pen as int,
                            line as int,
                            line_budget as int,
                        )
                    }),
                    if stopped {
                        placed@ == full
                    } else {
                        placed@ + spec_layout(
                            font,
                            chars_with_colour(text@.skip(i as int), colour) + rest_pairs,
                            max_width as int,
                            pen as int,
                            line as int,
                            line_budget as int,
                        ) == full
                    },
                    forall|j: int|
                        0 <= j < placed@.len() ==> (#[trigger] placed@[j]).x + font.spec_advance(
                            placed@[j].ch,
                        ) <= max_width && placed@[j].line <= line,
                decreases tlen - i,
            {
                let c = text.as_str().get_char(i);
                let ghost before = text@.skip(i as int) + rest;
                let ghost before_pairs = chars_with_colour(text@.skip(i as int), colour)
                    + rest_pairs;
                proof {
                    assert(before.len() > 0);
                    assert(before[0] == c);
                    assert(before.skip(1) =~= text@.skip(i as int + 1) + rest);
                    assert(before_pairs.len() > 0);
                    assert(chars_with_colour(text@.skip(i as int), colour)[0] == (text@.skip(
                        i as int,
                    )[0], colour));
                    assert(before_pairs[0] == (c, colour));
                    assert(before_pairs.skip(1) =~= chars_with_colour(
                        text@.skip(i as int + 1),
                        colour,
                    ) + rest_pairs) by {
                        assert forall|j: int| 0 <= j < before_pairs.len() - 1 implies #[trigger]
                        before_pairs.skip(1)[j] == (chars_with_colour(
                            text@.skip(i as int + 1),
                            colour,
                        ) + rest_pairs)[j] by {
                            if j < text@.len() - i - 1 {
                                assert(before_pairs.skip(1)[j] == before_pairs[j + 1]);
                                assert(chars_with_colour(text@.skip(i as int), colour)[j + 1] == (
                                text@.skip(i as int)[j + 1], colour));
                                assert(chars_with_colour(text@.skip(i as int + 1), colour)[j] == (
                                text@.skip(i as int + 1)[j], colour));
                            }
                        }
                    }
                }
                if !stopped {
                    let a: u32 = match font.find_glyph(c) {
                        Some(g) => {
                            proof {
                                lemma_glyph_index_valid(font.spec_glyphs(), c);
                            }
                            font.glyph(g).advance
                        },
                        None => 0,
                    };
                    proof {
                        assert(a as int == font.spec_advance(c));
                    }
                    if a > max_width {
                        // this glyph can never fit; skip it
                    } else if (pen as u64) + (a as u64) <= (max_width as u64) {
                        let ghost placed_before = placed@;
                        let ghost pg = PlacedGlyph { ch: c, colour, x: pen, line };
                        placed.push(PlacedGlyph { ch: c, colour, x: pen, line });
                        proof {
                            let rec = spec_layout(
                                font,
                                before_pairs.skip(1),
                                max_width as int,
                                pen as int + a as int,
                                line as int,
                                line_budget as int,
                            );
                            assert(spec_layout(
                                font,
                                before_pairs,
                                max_width as int,
                                pen as int,
                                line as int,
                                line_budget as int,
                            ) == seq![pg] + rec);
                            assert(placed_before + (seq![pg] + rec) =~= placed@ + rec);
                        }
                        pen = pen + a;
                    } else if line + 1 < line_budget {
                        let ghost placed_before = placed@;
                        line = line + 1;
                        let ghost pg = PlacedGlyph { ch: c, colour, x: 0u32, line };
                        placed.push(PlacedGlyph { ch: c, colour, x: 0, line });
                        proof {
                            let rec = spec_layout(
                                font,
                                before_pairs.skip(1),
                                max_width as int,
                                a as int,
                                line as int,
                                line_budget as int,
                            );
                            assert(spec_layout(
                                font,
                                before_pairs,
                                max_width as int,
                                pen as int,
                                line as int - 1,
                                line_budget as int,
                            ) == seq![pg] + rec);
                            assert(placed_before + (seq![pg] + rec) =~= placed@ + rec);
                        }
                        pen = a;
                    } else {
                        stopped = true;
                        proof {
                            assert(spec_layout(
                                font,
                                before_pairs,
                                max_width as int,
                                pen as int,
                                line as int,
                                line_budget as int,
                            ) =~= Seq::<PlacedGlyph>::empty());
                            assert(placed@ + Seq::<PlacedGlyph>::empty() =~= placed@);
                        }
                    }
                }
                i += 1;
            }
            proof {
                assert(text@.skip(tlen as int) =~= Seq::<char>::empty());
                assert(text@.skip(tlen as int) + rest =~= rest);
                assert(chars_with_colour(text@.skip(tlen as int), colour) + rest_pairs
                    =~= rest_pairs);
            }
            s += 1;
        }
        proof {
            assert(segments@.skip(nseg as int) =~= Seq::<TextSegment>::empty());
            assert(segments_chars(segments@.skip(nseg as int)) =~= Seq::<char>::empty());
            assert(segment_pairs(segments@.skip(nseg as int)) =~= Seq::<(char, Rgb)>::empty());
            if !stopped {
                assert(placed@ + Seq::<PlacedGlyph>::empty() =~= placed@);
            }
        }
        let line_count = line + 1;
        proof {
            assert(line_count as int * font.spec_line_height() as int <= 0xffff * 0xffff)
                by (nonlinear_arith)
                requires
                    0 <= line_count as int <= 0xffff,
                    0 <= font.spec_line_height() as int <= 0xffff,
            ;
        }
        let height = ((line_count as u64) * (font.line_height() as u64)) as u32;
        TextBox { placed, line_count, line_height: font.line_height(), max_width, height }
    }
}

} // verus!
