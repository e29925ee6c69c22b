//! Colour gradients with piecewise-linear interpolation.
//!
//! A [`MultiPointGradient`] is an ascending-by-position list of colour
//! control points. Querying a position at or before the first point
//! yields the first colour, at or past the last point the last colour,
//! and in between a linear blend of the two bracketing points, each
//! channel rounded to the nearest integer.

use vstd::arithmetic::div_mod::{
    lemma_div_is_ordered, lemma_div_multiples_vanish, lemma_div_multiples_vanish_fancy,
    lemma_fundamental_div_mod, lemma_multiply_divide_lt,
};
use vstd::prelude::*;

verus! {

/// An RGB colour with one byte per channel.
#[derive(Clone, Copy, Debug, PartialEq, Eq, Structural)]
pub struct Rgb {
    pub red: u8,
    pub green: u8,
    pub blue: u8,
}

impl Rgb {
    pub fn new(red: u8, green: u8, blue: u8) -> (r: Rgb)
        ensures
            r == (Rgb { red, green, blue }),
    {
        Rgb { red, green, blue }
    }

    pub fn white() -> (r: Rgb)
        ensures
            r == (Rgb { red: 255u8, green: 255u8, blue: 255u8 }),
    {
        Rgb { red: 255, green: 255, blue: 255 }
    }

}

/// A gradient control point: a colour anchored at an absolute pixel
/// position, measured like all vertical chart positions from the
/// bottom of the canvas.
#[derive(Clone, Copy, Debug, PartialEq, Eq, Structural)]
pub struct GradientPoint {
    pub position: u32,
    pub colour: Rgb,
}

impl GradientPoint {
    pub fn from_rgb(position: u32, rgb: [u8; 3]) -> (r: GradientPoint)
        ensures
            r.position == position,
            r.colour == (Rgb { red: rgb[0], green: rgb[1], blue: rgb[2] }),
    {
        GradientPoint { position, colour: Rgb { red: rgb[0], green: rgb[1], blue: rgb[2] } }
    }
}

/// Linear interpolation of one colour channel, rounded to the nearest
/// integer: the blend of `c1` (weight `den - num`) and `c2` (weight
/// `num`) over a segment of length `den`.
pub open spec fn lerp_channel(c1: int, c2: int, num: int, den: int) -> int {
    (c1 * (den - num) + c2 * num + den / 2) / den
}

/// Per-channel linear interpolation between two control points.
pub open spec fn lerp_colour(a: GradientPoint, b: GradientPoint, pos: int) -> Rgb {
    let num = pos - a.position;
    let den = b.position - a.position;
    Rgb {
        red: lerp_channel(a.colour.red as int, b.colour.red as int, num, den) as u8,
        green: lerp_channel(a.colour.green as int, b.colour.green as int, num, den) as u8,
        blue: lerp_channel(a.colour.blue as int, b.colour.blue as int, num, den) as u8,
    }
}

/// Control point positions are strictly ascending.
pub open spec fn positions_ascending(points: Seq<GradientPoint>) -> bool {
    forall|j: int|
        0 <= j < points.len() - 1 ==> #[trigger] points[j].position < points[j + 1].position
}

/// The colour a gradient with the given control points yields at `pos`:
/// clamped to the first colour before the first point, to the last
/// colour past the last point, and linearly interpolated in between.
pub open spec fn colour_in_gradient(points: Seq<GradientPoint>, pos: int) -> Rgb
    recommends
        points.len() >= 1,
    decreases points.len(),
{
    if points.len() <= 1 || pos <= points[0].position {
        points[0].colour
    } else if pos <= points[1].position {
        lerp_colour(points[0], points[1], pos)
    } else {
        colour_in_gradient(points.skip(1), pos)
    }
}

/// `c` lies in the closed interval spanned by `a` and `b`, whichever
/// order those two are in.
pub open spec fn channel_between(a: u8, b: u8, c: u8) -> bool {
    if a <= b {
        a <= c <= b
    } else {
        b <= c <= a
    }
}

/// Rounding to the nearest integer keeps an interpolated channel inside
/// the interval spanned by the two endpoint channels.
pub proof fn lemma_lerp_channel_bounds(c1: int, c2: int, num: int, den: int)
    requires
        0 <= num <= den,
        0 < den,
        0 <= c1,
        0 <= c2,
    ensures
        (if c1 <= c2 {
            c1
        } else {
            c2
        }) <= lerp_channel(c1, c2, num, den),
        lerp_channel(c1, c2, num, den) <= (if c1 <= c2 {
            c2
        } else {
            c1
        }),
{
    let lo = if c1 <= c2 {
        c1
    } else {
        c2
    };
    let hi = if c1 <= c2 {
        c2
    } else {
        c1
    };
    let core = c1 * (den - num) + c2 * num;
    assert(den * lo <= c1 * (den - num) + c2 * num && c1 * (den - num) + c2 * num <= den
        * hi) by (nonlinear_arith)
        requires
            0 <= num <= den,
            0 < den,
            lo <= c1 <= hi,
            lo <= c2 <= hi,
    ;
    lemma_fundamental_div_mod(den, 2);
    let n = core + den / 2;
    assert(den * lo <= n);
    lemma_div_is_ordered(den * lo, n, den);
    lemma_div_multiples_vanish(lo, den);
    assert(den * hi + den == den * (hi + 1)) by (nonlinear_arith);
    assert(n < den * (hi + 1));
    lemma_multiply_divide_lt(n, den, hi + 1);
}

/// At the two ends of a segment the rounded interpolation is exact.
pub proof fn lemma_lerp_channel_exact(c1: int, c2: int, den: int)
    requires
        0 < den,
        0 <= c1,
        0 <= c2,
    ensures
        lerp_channel(c1, c2, 0, den) == c1,
        lerp_channel(c1, c2, den, den) == c2,
{
    lemma_fundamental_div_mod(den, 2);
    assert(c1 * (den - 0) + c2 * 0 == den * c1) by (nonlinear_arith);
    lemma_div_multiples_vanish_fancy(c1, den / 2, den);
    assert(c1 * (den - den) + c2 * den == den * c2) by (nonlinear_arith);
    lemma_div_multiples_vanish_fancy(c2, den / 2, den);
}

/// Strict ascent of adjacent positions gives strict ascent of any pair.
proof fn lemma_ascending_pairwise(points: Seq<GradientPoint>, j: int, k: int)
    requires
        positions_ascending(points),
        0 <= j < k < points.len(),
    ensures
        points[j].position < points[k].position,
    decreases k - j,
{
    if j + 1 < k {
        lemma_ascending_pairwise(points, j + 1, k);
    }
}

/// Dropping the first control point keeps the positions ascending.
proof fn lemma_ascending_skip(points: Seq<GradientPoint>)
    requires
        positions_ascending(points),
        points.len() >= 1,
    ensures
        positions_ascending(points.skip(1)),
{
    let rest = points.skip(1);
    assert forall|j: int| 0 <= j < rest.len() - 1 implies #[trigger] rest[j].position < rest[j
        + 1].position by {
        assert(points[j + 1].position < points[j + 2].position);
    }
}

/// Querying a gradient at a control point's exact position returns that
/// point's colour, with no rounding drift.
pub proof fn lemma_gradient_exact_at_control_point(points: Seq<GradientPoint>, j: int)
    requires
        points.len() >= 1,
        positions_ascending(points),
        0 <= j < points.len(),
    ensures
        colour_in_gradient(points, points[j].position as int) == points[j].colour,
    decreases j,
{
    let pos = points[j].position as int;
    if j == 0 {
        // clamped (or single-point) case: the first colour is returned
    } else if j == 1 {
        let a = points[0];
        let b = points[1];
        let den = b.position - a.position;
        lemma_lerp_channel_exact(a.colour.red as int, b.colour.red as int, den);
        lemma_lerp_channel_exact(a.colour.green as int, b.colour.green as int, den);
        lemma_lerp_channel_exact(a.colour.blue as int, b.colour.blue as int, den);
        lemma_lerp_channel_bounds(a.colour.red as int, b.colour.red as int, den, den);
        lemma_lerp_channel_bounds(a.colour.green as int, b.colour.green as int, den, den);
        lemma_lerp_channel_bounds(a.colour.blue as int, b.colour.blue as int, den, den);
        assert(colour_in_gradient(points, pos) == lerp_colour(a, b, pos));
    } else {
        lemma_ascending_pairwise(points, 1, j);
        lemma_ascending_skip(points);
        lemma_gradient_exact_at_control_point(points.skip(1), j - 1);
        assert(points.skip(1)[j - 1] == points[j]);
    }
}

/// Between two adjacent control points, every interpolated channel of
/// the returned colour stays within the interval spanned by those two
/// points' channels.
pub proof fn lemma_gradient_channel_bounded(points: Seq<GradientPoint>, j: int, pos: int)
    requires
        points.len() >= 2,
        positions_ascending(points),
        0 <= j < points.len() - 1,
        points[j].position <= pos <= points[j + 1].position,
    ensures
        channel_between(
            points[j].colour.red,
            points[j + 1].colour.red,
            colour_in_gradient(points, pos).red,
        ),
        channel_between(
            points[j].colour.green,
            points[j + 1].colour.green,
            colour_in_gradient(points, pos).green,
        ),
        channel_between(
            points[j].colour.blue,
            points[j + 1].colour.blue,
            colour_in_gradient(points, pos).blue,
        ),
    decreases j,
{
    let a = points[0];
    let b = points[1];
    if pos <= a.position as int {
        // only reachable with j == 0 and pos == points[0].position
        assert(j == 0) by {
            if j > 0 {
                lemma_ascending_pairwise(points, 0, j);
            }
        }
    } else if pos <= b.position as int {
        // the query falls in the first segment, so j is 0 or 1
        let den = b.position - a.position;
        let num = pos - a.position;
        if j == 0 {
            lemma_lerp_channel_bounds(a.colour.red as int, b.colour.red as int, num, den);
            lemma_lerp_channel_bounds(a.colour.green as int, b.colour.green as int, num, den);
            lemma_lerp_channel_bounds(a.colour.blue as int, b.colour.blue as int, num, den);
        } else {
            // pos is at least points[j].position, which is at least
            // points[1].position, so pos is exactly the shared point
            if j > 1 {
                lemma_ascending_pairwise(points, 1, j);
            }
            assert(j == 1 && pos == b.position as int);
            lemma_lerp_channel_exact(a.colour.red as int, b.colour.red as int, den);
            lemma_lerp_channel_exact(a.colour.green as int, b.colour.green as int, den);
            lemma_lerp_channel_exact(a.colour.blue as int, b.colour.blue as int, den);
        }
    } else {
        // pos lies past the first segment, so j >= 1; recurse
        assert(j >= 1) by {
            if j == 0 {
                assert(pos <= points[1].position);
            }
        }
        lemma_ascending_skip(points);
        lemma_gradient_channel_bounded(points.skip(1), j - 1, pos);
        assert(points.skip(1)[j - 1] == points[j]);
        assert(points.skip(1)[j] == points[j + 1]);
    }
}

/// An ordered sequence of colour control points, interpolated linearly
/// per channel between adjacent points and clamped at both ends.
#[derive(Debug)]
pub struct MultiPointGradient {
    points: Vec<GradientPoint>,
}

impl View for MultiPointGradient {
    type V = Seq<GradientPoint>;

    closed spec fn view(&self) -> Seq<GradientPoint> {
        self.points@
    }
}

impl MultiPointGradient {
    /// At least one control point, with strictly ascending positions.
    pub open spec fn wf(&self) -> bool {
        &&& self@.len() >= 1
        &&& positions_ascending(self@)
    }

    pub fn new(points: Vec<GradientPoint>) -> (r: MultiPointGradient)
        requires
            points@.len() >= 1,
            positions_ascending(points@),
        ensures
            r@ == points@,
            r.wf(),
    {
        MultiPointGradient { points }
    }

    /// The colour of the gradient at an absolute pixel position.
    pub fn color_at(&self, position: u32) -> (r: Rgb)
        requires
            self.wf(),
        ensures
            r == colour_in_gradient(self@, position as int),
    {
        let n = self.points.len();
        if n == 1 || position <= self.points[0].position {
            return self.points[0].colour;
        }
        let mut i: usize = 0;
        proof {
            assert(self@.skip(0) =~= self@);
        }
        while i + 2 < n && position > self.points[i + 1].position
            invariant
                self.wf(),
                n == self@.len(),
                n >= 2,
                i + 2 <= n,
                position > self@[i as int].position,
                colour_in_gradient(self@.skip(i as int), position as int) == colour_in_gradient(
                    self@,
                    position as int,
                ),
            decreases n - i,
        {
            proof {
                assert(self@.skip(i as int).skip(1) =~= self@.skip(i as int + 1));
            }
            i += 1;
        }
        let a = self.points[i];
        let b = self.points[i + 1];
        proof {
            assert(self@.skip(i as int)[0] == a);
            assert(self@.skip(i as int)[1] == b);
            assert(a.position < b.position);
        }
        if position > b.position {
            proof {
                assert(self@.skip(i as int).skip(1) =~= self@.skip(i as int + 1));
                assert(colour_in_gradient(self@.skip(i as int + 1), position as int) == b.colour);
            }
            return b.colour;
        }
        let num = (position - a.position) as u64;
        let den = (b.position - a.position) as u64;
        let red = lerp_channel_exec(a.colour.red, b.colour.red, num, den);
        let green = lerp_channel_exec(a.colour.green, b.colour.green, num, den);
        let blue = lerp_channel_exec(a.colour.blue, b.colour.blue, num, den);
        proof {
            assert(colour_in_gradient(self@.skip(i as int), position as int) == lerp_colour(
                a,
                b,
                position as int,
            ));
        }
        Rgb { red, green, blue }
    }
}

/// One channel of the linear blend, computed exactly as
/// [`lerp_channel`] states it.
fn lerp_channel_exec(c1: u8, c2: u8, num: u64, den: u64) -> (r: u8)
    requires
        0 < den <= u32::MAX,
        num <= den,
    ensures
        r == lerp_channel(c1 as int, c2 as int, num as int, den as int),
{
    proof {
        lemma_lerp_channel_bounds(c1 as int, c2 as int, num as int, den as int);
        assert((c1 as int) * ((den - num) as int) <= 255 * 0xffff_ffff && (c2 as int) * (
        num as int) <= 255 * 0xffff_ffff) by (nonlinear_arith)
            requires
                c1 as int <= 255,
                c2 as int <= 255,
                0 <= num as int <= den as int <= 0xffff_ffff,
        ;
    }
    let val = ((c1 as u64) * (den - num) + (c2 as u64) * num + den / 2) / den;
    val as u8
}

} // verus!
