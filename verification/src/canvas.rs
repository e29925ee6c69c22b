//! Owned RGB raster buffers and vertical compositing.
//!
//! A [`Canvas`] stores one panel's pixels as a flat row-major RGB byte
//! buffer, top row first. Finished panels of equal width are stacked
//! top to bottom into one taller canvas by [`composite`].

use crate::error::Error;
use crate::gradient::Rgb;
use vstd::prelude::*;

verus! {

/// Largest number of pixels a canvas may hold; a defensive cap so that
/// index arithmetic stays far from any machine limit.
pub const MAX_CANVAS_AREA: usize = 0x400_0000;

/// Length in bytes of an RGB buffer for the given dimensions.
pub open spec fn buffer_len(width: int, height: int) -> int {
    3 * (width * height)
}

/// Byte offset of pixel `(x, y)` in a row-major RGB buffer.
pub open spec fn pixel_index(width: int, x: int, y: int) -> int {
    3 * (y * width + x)
}

/// The colour of pixel `(x, y)` in a flat RGB byte sequence.
pub open spec fn pixel_of(data: Seq<u8>, width: int, x: int, y: int) -> Rgb {
    Rgb {
        red: data[pixel_index(width, x, y)],
        green: data[pixel_index(width, x, y) + 1],
        blue: data[pixel_index(width, x, y) + 2],
    }
}

/// A pixel's bytes lie inside the buffer for its canvas dimensions.
proof fn lemma_pixel_index_bounds(width: int, height: int, x: int, y: int)
    requires
        0 <= x < width,
        0 <= y < height,
    ensures
        0 <= pixel_index(width, x, y),
        pixel_index(width, x, y) + 2 < buffer_len(width, height),
{
    assert(0 <= y * width + x && y * width + x < width * height) by (nonlinear_arith)
        requires
            0 <= x < width,
            0 <= y < height,
    ;
}

/// Distinct pixel coordinates use disjoint byte triples.
proof fn lemma_pixel_index_distinct(width: int, x1: int, y1: int, x2: int, y2: int)
    requires
        0 <= x1 < width,
        0 <= x2 < width,
        0 <= y1,
        0 <= y2,
        !(x1 == x2 && y1 == y2),
    ensures
        pixel_index(width, x1, y1) + 2 < pixel_index(width, x2, y2) || pixel_index(width, x2, y2)
            + 2 < pixel_index(width, x1, y1),
{
    assert(y1 * width + x1 != y2 * width + x2) by (nonlinear_arith)
        requires
            0 <= x1 < width,
            0 <= x2 < width,
            0 <= y1,
            0 <= y2,
            !(x1 == x2 && y1 == y2),
    ;
}

/// An owned RGB raster, row-major, top row first.
#[derive(Debug)]
pub struct Canvas {
    width: usize,
    height: usize,
    data: Vec<u8>,
}

impl View for Canvas {
    type V = Seq<u8>;

    closed spec fn view(&self) -> Seq<u8> {
        self.data@
    }
}

impl Canvas {
    pub closed spec fn spec_width(&self) -> usize {
        self.width
    }

    pub closed spec fn spec_height(&self) -> usize {
        self.height
    }

    /// The buffer holds exactly one RGB triple per pixel and the
    /// dimensions stay under the defensive cap.
    pub open spec fn wf(&self) -> bool {
        &&& self@.len() == buffer_len(self.spec_width() as int, self.spec_height() as int)
        &&& 1 <= self.spec_width()
        &&& 1 <= self.spec_height()
        &&& self.spec_width() * self.spec_height() <= MAX_CANVAS_AREA
    }

    /// The colour of pixel `(x, y)`, row `0` being the top row.
    pub open spec fn spec_pixel(&self, x: int, y: int) -> Rgb {
        pixel_of(self@, self.spec_width() as int, x, y)
    }

    /// The colour of the pixel `x` across and `yb` up from the
    /// bottom-left corner.
    pub open spec fn spec_pixel_up(&self, x: int, yb: int) -> Rgb {
        self.spec_pixel(x, self.spec_height() - 1 - yb)
    }

    #[verifier::when_used_as_spec(spec_width)]
    pub fn width(&self) -> (r: usize)
        ensures
            r == self.spec_width(),
    {
        self.width
    }

    #[verifier::when_used_as_spec(spec_height)]
    pub fn height(&self) -> (r: usize)
        ensures
            r == self.spec_height(),
    {
        self.height
    }

    /// A fresh all-black canvas of the given dimensions.
    pub fn new(width: usize, height: usize) -> (r: Canvas)
        requires
            1 <= width,
            1 <= height,
            width * height <= MAX_CANVAS_AREA,
        ensures
            r.wf(),
            r.spec_width() == width,
            r.spec_height() == height,
            forall|x: int, y: int|
                0 <= x < width && 0 <= y < height ==> r.spec_pixel(x, y) == (Rgb {
                    red: 0u8,
                    green: 0u8,
                    blue: 0u8,
                }),
    {
        let len: usize = 3 * (width * height);
        let mut data: Vec<u8> = Vec::new();
        let mut i: usize = 0;
        while i < len
            invariant
                data@.len() == i,
                i <= len,
                forall|j: int| 0 <= j < i ==> data@[j] == 0u8,
            decreases len - i,
        {
            data.push(0u8);
            i += 1;
        }
        let r = Canvas { width, height, data };
        proof {
            assert forall|x: int, y: int| 0 <= x < width && 0 <= y < height implies r.spec_pixel(
                x,
                y,
            ) == (Rgb { red: 0u8, green: 0u8, blue: 0u8 }) by {
                lemma_pixel_index_bounds(width as int, height as int, x, y);
            }
        }
        r
    }

    /// Overwrite one pixel, leaving every other pixel as it was.
    pub fn set_pixel(&mut self, x: usize, y: usize, colour: Rgb)
        requires
            old(self).wf(),
            x < old(self).spec_width(),
            y < old(self).spec_height(),
        ensures
            final(self).wf(),
            final(self).spec_width() == old(self).spec_width(),
            final(self).spec_height() == old(self).spec_height(),
            final(self).spec_pixel(x as int, y as int) == colour,
            forall|i: int, j: int|
                0 <= i < old(self).spec_width() && 0 <= j < old(self).spec_height() && !(i
                    == x as int && j == y as int) ==> final(self).spec_pixel(i, j) == old(
                    self,
                ).spec_pixel(i, j),
    {
        proof {
            lemma_pixel_index_bounds(
                self.spec_width() as int,
                self.spec_height() as int,
                x as int,
                y as int,
            );
            assert(y * self.width + x < MAX_CANVAS_AREA) by (nonlinear_arith)
                requires
                    x < self.spec_width(),
                    y < self.spec_height(),
                    self.spec_width() * self.spec_height() <= MAX_CANVAS_AREA,
                    MAX_CANVAS_AREA == 0x400_0000,
            ;
        }
        let idx: usize = 3 * (y * self.width + x);
        self.data[idx] = colour.red;
        self.data[idx + 1] = colour.green;
        self.data[idx + 2] = colour.blue;
        proof {
            let w = self.spec_width() as int;
            let h = self.spec_height() as int;
            assert forall|i: int, j: int|
                0 <= i < w && 0 <= j < h && !(i == x as int && j
                    == y as int) implies self.spec_pixel(i, j) == old(self).spec_pixel(i, j) by {
                lemma_pixel_index_bounds(w, h, i, j);
                lemma_pixel_index_distinct(w, i, j, x as int, y as int);
            }
        }
    }

    /// Fill an axis-aligned rectangle, leaving all other pixels as they
    /// were. An empty rectangle changes nothing.
    pub fn fill_rect(
        &mut self,
        x0: usize,
        y0: usize,
        rect_w: usize,
        rect_h: usize,
        colour: Rgb,
    )
        requires
            old(self).wf(),
            x0 + rect_w <= old(self).spec_width(),
            y0 + rect_h <= old(self).spec_height(),
        ensures
            final(self).wf(),
            final(self).spec_width() == old(self).spec_width(),
            final(self).spec_height() == old(self).spec_height(),
            forall|i: int, j: int|
                0 <= i < old(self).spec_width() && 0 <= j < old(self).spec_height()
                    ==> final(self).spec_pixel(i, j) == (if x0 <= i < x0 + rect_w && y0 <= j < y0
                    + rect_h {
                    colour
                } else {
                    old(self).spec_pixel(i, j)
                }),
    {
        let mut dy: usize = 0;
        while dy < rect_h
            invariant
                old(self).wf(),
                self.wf(),
                self.spec_width() == old(self).spec_width(),
                self.spec_height() == old(self).spec_height(),
                x0 + rect_w <= self.spec_width(),
                y0 + rect_h <= self.spec_height(),
                dy <= rect_h,
                forall|i: int, j: int|
                    0 <= i < old(self).spec_width() && 0 <= j < old(self).spec_height()
                        ==> self.spec_pixel(i, j) == (if x0 <= i < x0 + rect_w && y0 <= j < y0
                        + dy {
                        colour
                    } else {
                        old(self).spec_pixel(i, j)
                    }),
            decreases rect_h - dy,
        {
            let mut dx: usize = 0;
            while dx < rect_w
                invariant
                    old(self).wf(),
                    self.wf(),
                    self.spec_width() == old(self).spec_width(),
                    self.spec_height() == old(self).spec_height(),
                    x0 + rect_w <= self.spec_width(),
                    y0 + rect_h <= self.spec_height(),
                    dy < rect_h,
                    dx <= rect_w,
                    forall|i: int, j: int|
                        0 <= i < old(self).spec_width() && 0 <= j < old(self).spec_height()
                            ==> self.spec_pixel(i, j) == (if (x0 <= i < x0 + rect_w && y0 <= j < y0
                            + dy) || (x0 <= i < x0 + dx && j == y0 + dy) {
                            colour
                        } else {
                            old(self).spec_pixel(i, j)
                        }),
                decreases rect_w - dx,
            {
                self.set_pixel(x0 + dx, y0 + dy, colour);
                dx += 1;
            }
            dy += 1;
        }
    }

    /// Read one byte of the raw RGB buffer.
    pub fn byte_at(&self, i: usize) -> (r: u8)
        requires
            i < self@.len(),
        ensures
            r == self@[i as int],
    {
        self.data[i]
    }

    /// Read one pixel.
    pub fn get_pixel(&self, x: usize, y: usize) -> (r: Rgb)
        requires
            self.wf(),
            x < self.spec_width(),
            y < self.spec_height(),
        ensures
            r == self.spec_pixel(x as int, y as int),
    {
        proof {
            lemma_pixel_index_bounds(
                self.spec_width() as int,
                self.spec_height() as int,
                x as int,
                y as int,
            );
            assert(y * self.width + x < MAX_CANVAS_AREA) by (nonlinear_arith)
                requires
                    x < self.spec_width(),
                    y < self.spec_height(),
                    self.spec_width() * self.spec_height() <= MAX_CANVAS_AREA,
                    MAX_CANVAS_AREA == 0x400_0000,
            ;
        }
        let idx: usize = 3 * (y * self.width + x);
        Rgb { red: self.data[idx], green: self.data[idx + 1], blue: self.data[idx + 2] }
    }
}

/// One channel of colour `c` blended over `o` with coverage `a` out of
/// 255.
pub open spec fn blend_channel(c: int, o: int, a: int) -> int {
    (c * a + o * (255 - a)) / 255
}

/// Colour `c` blended over `o` with coverage `a` out of 255, channel by
/// channel.
pub open spec fn blend_colour(c: Rgb, o: Rgb, a: int) -> Rgb {
    Rgb {
        red: blend_channel(c.red as int, o.red as int, a) as u8,
        green: blend_channel(c.green as int, o.green as int, a) as u8,
        blue: blend_channel(c.blue as int, o.blue as int, a) as u8,
    }
}

/// One exact channel blend.
fn blend_channel_exec(c: u8, o: u8, a: u8) -> (r: u8)
    ensures
        r == blend_channel(c as int, o as int, a as int),
{
    proof {
        assert((c as int) * (a as int) + (o as int) * (255 - a as int) <= 255 * 255)
            by (nonlinear_arith)
            requires
                0 <= c as int <= 255,
                0 <= o as int <= 255,
                0 <= a as int <= 255,
        ;
        vstd::arithmetic::div_mod::lemma_multiply_divide_le(
            (c as int) * (a as int) + (o as int) * (255 - a as int),
            255,
            255,
        );
    }
    (((c as u32) * (a as u32) + (o as u32) * (255 - a as u32)) / 255) as u8
}

impl Canvas {
    /// Blend a colour over one pixel with the given coverage, leaving
    /// every other pixel as it was.
    pub fn blend_pixel(&mut self, x: usize, y: usize, colour: Rgb, alpha: u8)
        requires
            old(self).wf(),
            x < old(self).spec_width(),
            y < old(self).spec_height(),
        ensures
            final(self).wf(),
            final(self).spec_width() == old(self).spec_width(),
            final(self).spec_height() == old(self).spec_height(),
            final(self).spec_pixel(x as int, y as int) == blend_colour(
                colour,
                old(self).spec_pixel(x as int, y as int),
                alpha as int,
            ),
            forall|i: int, j: int|
                0 <= i < old(self).spec_width() && 0 <= j < old(self).spec_height() && !(i
                    == x as int && j == y as int) ==> final(self).spec_pixel(i, j) == old(
                    self,
                ).spec_pixel(i, j),
    {
        let o = self.get_pixel(x, y);
        let blended = Rgb {
            red: blend_channel_exec(colour.red, o.red, alpha),
            green: blend_channel_exec(colour.green, o.green, alpha),
            blue: blend_channel_exec(colour.blue, o.blue, alpha),
        };
        self.set_pixel(x, y, blended);
    }
}

/// Total height of the first `k` canvases: the vertical offset at which
/// canvas `k` starts in the composite image.
pub open spec fn heights_before(canvases: Seq<Canvas>, k: int) -> int
    decreases k,
{
    if k <= 0 {
        0
    } else {
        heights_before(canvases, k - 1) + canvases[k - 1].spec_height()
    }
}

/// Every canvas contributes at least one row, so the running offset
/// grows at least as fast as the index.
proof fn lemma_heights_before_lower(canvases: Seq<Canvas>, k: int)
    requires
        0 <= k <= canvases.len(),
        forall|j: int| 0 <= j < canvases.len() ==> (#[trigger] canvases[j]).wf(),
    ensures
        heights_before(canvases, k) >= k,
    decreases k,
{
    if k > 0 {
        lemma_heights_before_lower(canvases, k - 1);
    }
}

/// The running offset never shrinks as more canvases are counted.
proof fn lemma_heights_before_monotonic(canvases: Seq<Canvas>, j: int, k: int)
    requires
        0 <= j <= k <= canvases.len(),
        forall|m: int| 0 <= m < canvases.len() ==> (#[trigger] canvases[m]).wf(),
    ensures
        heights_before(canvases, j) <= heights_before(canvases, k),
    decreases k - j,
{
    if j < k {
        lemma_heights_before_monotonic(canvases, j, k - 1);
        lemma_heights_before_lower(canvases, k - 1);
    }
}

/// Stack canvases of one width vertically, top to bottom in list order.
///
/// Succeeds exactly when there is at least one canvas, all widths agree,
/// and the stacked image stays under the canvas area cap; in the result,
/// canvas `k`'s pixels sit at vertical offset `heights_before(k)`.
pub fn composite(canvases: &Vec<Canvas>) -> (r: Result<Canvas, Error>)
    requires
        forall|k: int| 0 <= k < canvases@.len() ==> (#[trigger] canvases@[k]).wf(),
    ensures
        r is Ok <==> canvases@.len() >= 1 && (forall|k: int|
            0 <= k < canvases@.len() ==> (#[trigger] canvases@[k]).spec_width()
                == canvases@[0].spec_width()) && canvases@[0].spec_width() as int * heights_before(
            canvases@,
            canvases@.len() as int,
        ) <= MAX_CANVAS_AREA,
        r matches Ok(c) ==> c.wf() && c.spec_width() == canvases@[0].spec_width()
            && c.spec_height() == heights_before(canvases@, canvases@.len() as int),
        r matches Ok(c) ==> forall|k: int, x: int, y: int|
            0 <= k < canvases@.len() && 0 <= x < canvases@[0].spec_width() && 0 <= y
                < canvases@[k].spec_height() ==> c.spec_pixel(
                x,
                heights_before(canvases@, k) + y,
            ) == #[trigger] canvases@[k].spec_pixel(x, y),
        r matches Err(e) ==> e is Unfriendly,
{
    let n = canvases.len();
    if n == 0 {
        return Err(Error::custom_unfriendly("nothing to composite".to_owned()));
    }
    let width = canvases[0].width;
    proof {
        assert(width as int <= MAX_CANVAS_AREA) by (nonlinear_arith)
            requires
                canvases@[0].spec_width() as int * canvases@[0].spec_height() as int
                    <= MAX_CANVAS_AREA,
                canvases@[0].spec_height() as int >= 1,
                width == canvases@[0].spec_width(),
        ;
    }
    // First pass: check the widths and accumulate the total height.
    let mut total: usize = 0;
    let mut k: usize = 0;
    while k < n
        invariant
            n == canvases@.len(),
            k <= n,
            forall|j: int| 0 <= j < n ==> (#[trigger] canvases@[j]).wf(),
            width == canvases@[0].spec_width(),
            width as int <= MAX_CANVAS_AREA,
            forall|j: int|
                0 <= j < k ==> (#[trigger] canvases@[j]).spec_width()
                    == canvases@[0].spec_width(),
            total == heights_before(canvases@, k as int),
            total as int <= MAX_CANVAS_AREA,
            width as int * total as int <= MAX_CANVAS_AREA,
        decreases n - k,
    {
        if canvases[k].width != width {
            return Err(Error::custom_unfriendly("composited widths differ".to_owned()));
        }
        let h = canvases[k].height;
        proof {
            assert(h as int <= MAX_CANVAS_AREA) by (nonlinear_arith)
                requires
                    canvases@[k as int].spec_width() as int * canvases@[k as int].spec_height()
                        as int <= MAX_CANVAS_AREA,
                    canvases@[k as int].spec_width() as int >= 1,
                    h == canvases@[k as int].spec_height(),
            ;
        }
        proof {
            assert(width as int * (total as int + h as int) <= 0x400_0000 * 0x800_0000)
                by (nonlinear_arith)
                requires
                    0 <= width as int <= 0x400_0000,
                    0 <= total as int + h as int <= 0x800_0000,
            ;
        }
        if (width as u64) * (total as u64 + h as u64) > MAX_CANVAS_AREA as u64 {
            proof {
                lemma_heights_before_monotonic(canvases@, k as int + 1, n as int);
                assert(width as int * heights_before(canvases@, n as int) >= width as int * (
                total as int + h as int)) by (nonlinear_arith)
                    requires
                        heights_before(canvases@, n as int) >= total as int + h as int,
                        width as int >= 1,
                ;
            }
            return Err(Error::custom_unfriendly("composite too large".to_owned()));
        }
        proof {
            assert(total as int + h as int <= MAX_CANVAS_AREA) by (nonlinear_arith)
                requires
                    width as int * (total as int + h as int) <= MAX_CANVAS_AREA,
                    width as int >= 1,
                    0 <= total as int + h as int,
            ;
        }
        total = total + h;
        k += 1;
    }
    proof {
        lemma_heights_before_lower(canvases@, n as int);
    }
    // Second pass: concatenate the row-major buffers, which stacks the
    // images vertically because all rows have one width.
    let mut data: Vec<u8> = Vec::new();
    let mut k: usize = 0;
    while k < n
        invariant
            n == canvases@.len(),
            n >= 1,
            k <= n,
            forall|j: int| 0 <= j < n ==> (#[trigger] canvases@[j]).wf(),
            width == canvases@[0].spec_width(),
            forall|j: int|
                0 <= j < n ==> (#[trigger] canvases@[j]).spec_width()
                    == canvases@[0].spec_width(),
            data@.len() == buffer_len(width as int, heights_before(canvases@, k as int)),
            forall|kk: int, x: int, y: int|
                0 <= kk < k && 0 <= x < width && 0 <= y < canvases@[kk].spec_height()
                    ==> pixel_of(
                    data@,
                    width as int,
                    x,
                    heights_before(canvases@, kk) + y,
                ) == #[trigger] canvases@[kk].spec_pixel(x, y),
        decreases n - k,
    {
        let ghost prefix = data@;
        let ghost off = heights_before(canvases@, k as int);
        let m = canvases[k].data.len();
        let mut j: usize = 0;
        while j < m
            invariant
                n == canvases@.len(),
                k < n,
                m == canvases@[k as int]@.len(),
                j <= m,
                data@ == prefix + canvases@[k as int]@.take(j as int),
            decreases m - j,
        {
            let b = canvases[k].data[j];
            data.push(b);
            proof {
                assert(data@ =~= prefix + canvases@[k as int]@.take(j as int + 1));
            }
            j += 1;
        }
        proof {
            assert(data@ =~= prefix + canvases@[k as int]@);
            let w = width as int;
            let hk = canvases@[k as int].spec_height() as int;
            // New pixels: canvas k's rows land at vertical offset `off`.
            assert forall|x: int, y: int| 0 <= x < w && 0 <= y < hk implies pixel_of(
                data@,
                w,
                x,
                off + y,
            ) == canvases@[k as int].spec_pixel(x, y) by {
                lemma_pixel_index_bounds(w, hk, x, y);
                assert((off + y) * w + x == off * w + (y * w + x)) by (nonlinear_arith);
                assert(pixel_index(w, x, off + y) == buffer_len(w, off) + pixel_index(w, x, y));
            }
            // Old pixels: indices below the old length are untouched.
            assert forall|kk: int, x: int, y: int|
                0 <= kk < k && 0 <= x < w && 0 <= y < canvases@[kk].spec_height() implies pixel_of(
                data@,
                w,
                x,
                heights_before(canvases@, kk) + y,
            ) == #[trigger] canvases@[kk].spec_pixel(x, y) by {
                let okk = heights_before(canvases@, kk);
                lemma_heights_before_lower(canvases@, kk);
                lemma_heights_before_monotonic(canvases@, kk + 1, k as int);
                assert(heights_before(canvases@, kk + 1) == okk + canvases@[kk].spec_height());
                assert((okk + y) * w + x < w * off) by (nonlinear_arith)
                    requires
                        0 <= x < w,
                        0 <= y,
                        okk + y < off,
                        0 <= okk,
                ;
                let idx = pixel_index(w, x, okk + y);
                assert(0 <= idx && idx + 2 < buffer_len(w, off));
                assert(data@[idx] == prefix[idx]);
                assert(data@[idx + 1] == prefix[idx + 1]);
                assert(data@[idx + 2] == prefix[idx + 2]);
                assert(pixel_of(data@, w, x, okk + y) == pixel_of(prefix, w, x, okk + y));
            }
            // The buffer grew by exactly one canvas's worth of rows.
            let hk2 = canvases@[k as int].spec_height() as int;
            assert(w * off + w * hk2 == w * (off + hk2)) by (nonlinear_arith);
            assert(data@.len() == buffer_len(w, heights_before(canvases@, k as int + 1)));
        }
        k += 1;
    }
    let result = Canvas { width, height: total, data };
    Ok(result)
}

} // verus!
