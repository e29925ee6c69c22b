//! Numeric range and tick planning.
//!
//! Chart values are fixed-point integers (the measured value times 100).
//! A panel's value axis is an inclusive [`Range`] of such values; before
//! drawing, the data's extent is padded outward so that both bounds fall
//! on multiples of the axis label interval.

use vstd::prelude::*;

verus! {

/// An inclusive interval `[start, end]` of fixed-point chart values.
#[derive(Clone, Copy, Debug, PartialEq, Eq, Structural)]
pub struct Range {
    start: i32,
    end: i32,
}

/// The largest multiple of `interval` that is at most `value`.
pub open spec fn prev_mult(value: int, interval: int) -> int {
    value - value % interval
}

/// The smallest multiple of `interval` that is at least `value`.
pub open spec fn next_mult(value: int, interval: int) -> int {
    if value % interval == 0 {
        value
    } else {
        value - value % interval + interval
    }
}

impl Range {
    /// Interval bounds are ordered.
    pub open spec fn wf(self) -> bool {
        self.spec_start() <= self.spec_end()
    }

    pub closed spec fn spec_start(self) -> i32 {
        self.start
    }

    pub closed spec fn spec_end(self) -> i32 {
        self.end
    }

    /// Number of values in the interval.
    pub open spec fn spec_len(self) -> int {
        self.spec_end() - self.spec_start() + 1
    }

    pub fn new(start: i32, end: i32) -> (r: Range)
        requires
            start <= end,
        ensures
            r.wf(),
            r.spec_start() == start,
            r.spec_end() == end,
    {
        Range { start, end }
    }

    #[verifier::when_used_as_spec(spec_start)]
    pub fn start(self) -> (r: i32)
        ensures
            r == self.spec_start(),
    {
        self.start
    }

    #[verifier::when_used_as_spec(spec_end)]
    pub fn end(self) -> (r: i32)
        ensures
            r == self.spec_end(),
    {
        self.end
    }

    pub fn len(self) -> (r: u64)
        requires
            self.wf(),
        ensures
            r == self.spec_len(),
    {
        (self.end as i64 - self.start as i64 + 1) as u64
    }
}

/// Round `value` down to the largest multiple of `interval` at most `value`.
pub fn previous_multiple(value: i32, interval: i32) -> (r: i32)
    requires
        interval > 0,
        i32::MIN + interval - 1 <= value,
    ensures
        r == prev_mult(value as int, interval as int),
        r as int % interval as int == 0,
        r <= value,
        value < r + interval,
{
    let rem = value.checked_rem_euclid(interval).unwrap();
    proof {
        let v = value as int;
        let i = interval as int;
        vstd::arithmetic::div_mod::lemma_fundamental_div_mod(v, i);
        vstd::arithmetic::div_mod::lemma_mod_multiples_basic(v / i, i);
        assert(i * (v / i) == (v / i) * i) by (nonlinear_arith);
        assert((v - v % i) % i == 0);
    }
    value - rem
}

/// Round `value` up to the smallest multiple of `interval` at least `value`.
pub fn next_multiple(value: i32, interval: i32) -> (r: i32)
    requires
        interval > 0,
        value + interval - 1 <= i32::MAX,
    ensures
        r == next_mult(value as int, interval as int),
        r as int % interval as int == 0,
        value <= r,
        r - interval < value,
{
    let rem = value.checked_rem_euclid(interval).unwrap();
    proof {
        let v = value as int;
        let i = interval as int;
        vstd::arithmetic::div_mod::lemma_fundamental_div_mod(v, i);
        vstd::arithmetic::div_mod::lemma_mod_multiples_basic(v / i + 1, i);
        assert(i * (v / i) + i == (v / i + 1) * i) by (nonlinear_arith);
        assert((v - v % i + i) % i == 0);
    }
    if rem == 0 {
        value
    } else {
        value + (interval - rem)
    }
}

/// Pad `range` outward so that both bounds are multiples of `interval`:
/// the start is rounded down and the end rounded up. When the padded
/// interval would collapse to a single point (an all-equal-value series
/// whose value already sits on a multiple), the end is pushed up by one
/// further `interval` so that the result never has zero extent.
pub fn previous_and_next_multiple(range: Range, interval: i32) -> (r: Range)
    requires
        range.wf(),
        interval > 0,
        i32::MIN + interval - 1 <= range.spec_start(),
        range.spec_end() + interval <= i32::MAX,
    ensures
        r.wf(),
        r.spec_start() as int % interval as int == 0,
        r.spec_end() as int % interval as int == 0,
        r.spec_start() <= range.spec_start(),
        range.spec_end() <= r.spec_end(),
        r.spec_start() < r.spec_end(),
        r.spec_start() == prev_mult(range.spec_start() as int, interval as int),
        r.spec_end() == if prev_mult(range.spec_start() as int, interval as int) == next_mult(
            range.spec_end() as int,
            interval as int,
        ) {
            prev_mult(range.spec_start() as int, interval as int) + interval
        } else {
            next_mult(range.spec_end() as int, interval as int)
        },
{
    let start = previous_multiple(range.start(), interval);
    let end = next_multiple(range.end(), interval);
    if start == end {
        proof {
            vstd::arithmetic::div_mod::lemma_mod_multiples_vanish(
                1,
                start as int,
                interval as int,
            );
        }
        Range::new(start, start + interval)
    } else {
        Range::new(start, end)
    }
}

} // verus!
