//! The `SizeRules` algebra: a widget's layout demand along one axis.
//!
//! A rule gives a hard minimum length, a preferred (ideal) length at least
//! as large, and a stretch priority saying how eagerly the widget absorbs
//! surplus space relative to its siblings. Rules compose *sequentially*
//! (row/column layout: lengths add) or in *parallel* (stacked layout:
//! lengths max). Distribution of an allocated length back down to children
//! is the job of [`crate::solve`].

use vstd::prelude::*;

verus! {

/// Which axis a layout query concerns.
#[derive(Clone, Copy, Debug, PartialEq, Eq, Structural)]
pub struct AxisInfo {
    /// True for the vertical axis, false for the horizontal one.
    pub vertical: bool,
}

/// How eagerly a widget absorbs surplus space, lowest first.
#[derive(Clone, Copy, Debug, PartialEq, Eq, Structural)]
pub enum StretchPolicy {
    /// Do not stretch beyond the ideal size unless no sibling wants space.
    Fixed,
    /// Stretch a little: filler areas and similar.
    Low,
    /// Stretch eagerly: scrollable regions and similar.
    High,
    /// The widget is useless unless stretched: takes precedence over all.
    Required,
}

impl StretchPolicy {
    /// Numeric rank of the priority, for comparisons: `Fixed` is lowest.
    pub open spec fn weight(self) -> int {
        match self {
            StretchPolicy::Fixed => 0,
            StretchPolicy::Low => 1,
            StretchPolicy::High => 2,
            StretchPolicy::Required => 3,
        }
    }

    /// The higher-priority of two policies.
    pub open spec fn spec_max(a: StretchPolicy, b: StretchPolicy) -> StretchPolicy {
        if a.weight() >= b.weight() {
            a
        } else {
            b
        }
    }

    /// Numeric rank of the priority, executable form.
    pub fn rank(self) -> (w: u8)
        ensures
            w as int == self.weight(),
    {
        match self {
            StretchPolicy::Fixed => 0,
            StretchPolicy::Low => 1,
            StretchPolicy::High => 2,
            StretchPolicy::Required => 3,
        }
    }

    /// Return the higher-priority of `self` and `other`.
    pub fn max_with(self, other: StretchPolicy) -> (r: StretchPolicy)
        ensures
            r == StretchPolicy::spec_max(self, other),
    {
        if self.rank() >= other.rank() {
            self
        } else {
            other
        }
    }
}

/// A widget's layout demand along one axis.
///
/// Invariant ([`SizeRules::wf`]): `min_len <= ideal_len`.
#[derive(Clone, Copy, Debug, PartialEq, Eq, Structural)]
pub struct SizeRules {
    /// Hard lower bound on the allocated length.
    pub min_len: u32,
    /// Preferred length; never below `min_len`.
    pub ideal_len: u32,
    /// How eagerly surplus space beyond the ideal is absorbed.
    pub stretch: StretchPolicy,
}

/// `a + b` clamped to the `u32` range.
pub open spec fn sat_add_u32(a: int, b: int) -> int {
    if a + b > u32::MAX as int {
        u32::MAX as int
    } else {
        a + b
    }
}

impl SizeRules {
    /// Well-formedness: the minimum never exceeds the ideal.
    pub open spec fn wf(self) -> bool {
        self.min_len <= self.ideal_len
    }

    /// The rule a fixed-size widget reports: minimum and ideal both `len`,
    /// no stretch.
    pub open spec fn spec_fixed(len: u32) -> SizeRules {
        SizeRules { min_len: len, ideal_len: len, stretch: StretchPolicy::Fixed }
    }

    /// Construct a rule for a fixed length: minimum = ideal = `len`, no
    /// stretch.
    pub fn fixed(len: u32) -> (r: SizeRules)
        ensures
            r == SizeRules::spec_fixed(len),
            r.wf(),
    {
        SizeRules { min_len: len, ideal_len: len, stretch: StretchPolicy::Fixed }
    }

    /// Sequential (row/column) composition: minima and ideals add,
    /// saturating at `u32::MAX`; the stretch priority is the higher of the
    /// two.
    pub open spec fn spec_combine_sequential(a: SizeRules, b: SizeRules) -> SizeRules {
        SizeRules {
            min_len: sat_add_u32(a.min_len as int, b.min_len as int) as u32,
            ideal_len: sat_add_u32(a.ideal_len as int, b.ideal_len as int) as u32,
            stretch: StretchPolicy::spec_max(a.stretch, b.stretch),
        }
    }

    /// Compose two rules sequentially, as members of a row or column.
    pub fn combine_sequential(a: SizeRules, b: SizeRules) -> (c: SizeRules)
        requires
            a.wf(),
            b.wf(),
        ensures
            c == SizeRules::spec_combine_sequential(a, b),
            c.wf(),
    {
        let min_len: u32 = if a.min_len <= u32::MAX - b.min_len {
            a.min_len + b.min_len
        } else {
            u32::MAX
        };
        let ideal_len: u32 = if a.ideal_len <= u32::MAX - b.ideal_len {
            a.ideal_len + b.ideal_len
        } else {
            u32::MAX
        };
        SizeRules { min_len, ideal_len, stretch: a.stretch.max_with(b.stretch) }
    }

    /// Parallel (stacked/overlaid) composition: elementwise maximum of
    /// minima and ideals; the stretch priority is the higher of the two.
    pub open spec fn spec_combine_parallel(a: SizeRules, b: SizeRules) -> SizeRules {
        SizeRules {
            min_len: if a.min_len >= b.min_len {
                a.min_len
            } else {
                b.min_len
            },
            ideal_len: if a.ideal_len >= b.ideal_len {
                a.ideal_len
            } else {
                b.ideal_len
            },
            stretch: StretchPolicy::spec_max(a.stretch, b.stretch),
        }
    }

    /// Compose two rules in parallel, as members of a stack.
    pub fn combine_parallel(a: SizeRules, b: SizeRules) -> (c: SizeRules)
        requires
            a.wf(),
            b.wf(),
        ensures
            c == SizeRules::spec_combine_parallel(a, b),
            c.wf(),
    {
        let min_len: u32 = if a.min_len >= b.min_len {
            a.min_len
        } else {
            b.min_len
        };
        let ideal_len: u32 = if a.ideal_len >= b.ideal_len {
            a.ideal_len
        } else {
            b.ideal_len
        };
        SizeRules { min_len, ideal_len, stretch: a.stretch.max_with(b.stretch) }
    }
}

/// Law: `fixed(0)` is a left identity of sequential composition. For every
/// well-formed rule `r`, combining `fixed(0)` before `r` gives back `r`
/// unchanged.
pub proof fn lemma_sequential_identity(r: SizeRules)
    requires
        r.wf(),
    ensures
        SizeRules::spec_combine_sequential(SizeRules::spec_fixed(0), r) == r,
{
}

} // verus!
