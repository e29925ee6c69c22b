//! Plain layout values shared by the chart primitives.

use vstd::prelude::*;

verus! {

/// Pixel margins around the plotted grid.
#[derive(Clone, Copy, Debug, PartialEq, Eq, Structural)]
pub struct Padding {
    pub above: u32,
    pub below: u32,
    pub left: u32,
    pub right: u32,
}

/// Pixel distance between consecutive data points (horizontal) and
/// between consecutive axis units (vertical).
#[derive(Clone, Copy, Debug, PartialEq, Eq, Structural)]
pub struct Spacing {
    pub horizontal: u32,
    pub vertical: u32,
}

/// How often axis marks appear: a grid line every `line` units, a label
/// every `label` units.
#[derive(Clone, Copy, Debug, PartialEq, Eq, Structural)]
pub struct MarkIntervals {
    line: u32,
    label: u32,
}

impl MarkIntervals {
    pub closed spec fn spec_line(self) -> u32 {
        self.line
    }

    pub closed spec fn spec_label(self) -> u32 {
        self.label
    }

    /// Marks recur: both intervals are at least one unit, and labels no
    /// more often than lines.
    pub open spec fn wf(self) -> bool {
        1 <= self.spec_line() <= self.spec_label()
    }

    pub fn new(line: u32, label: u32) -> (r: MarkIntervals)
        requires
            1 <= line <= label,
        ensures
            r.spec_line() == line,
            r.spec_label() == label,
            r.wf(),
    {
        MarkIntervals { line, label }
    }

    #[verifier::when_used_as_spec(spec_line)]
    pub fn line(self) -> (r: u32)
        ensures
            r == self.spec_line(),
    {
        self.line
    }

    #[verifier::when_used_as_spec(spec_label)]
    pub fn label(self) -> (r: u32)
        ensures
            r == self.spec_label(),
    {
        self.label
    }
}

} // verus!
