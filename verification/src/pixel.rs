//! Pixels as four 8-bit channels, and the blends applied to them.

use vstd::prelude::*;
use crate::arith::{clamp_add, clamp_add_spec, clamp_sub, clamp_sub_spec};

verus! {

/// The value of a fully opaque alpha channel, and the ceiling of every blend.
pub const OPAQUE: u8 = 255;

/// One pixel: red, green, blue and alpha.
#[derive(Clone, Copy, Debug, PartialEq, Eq, Structural)]
pub struct Rgba {
    pub r: u8,
    pub g: u8,
    pub b: u8,
    pub a: u8,
}

impl Rgba {
    /// The channel at position `k`: red, green, blue, then alpha.
    pub open spec fn channel(self, k: int) -> u8 {
        if k == 0 {
            self.r
        } else if k == 1 {
            self.g
        } else if k == 2 {
            self.b
        } else {
            self.a
        }
    }

    /// The saturating sum of two pixels' colours, fully opaque.
    pub open spec fn spec_sum(self, other: Rgba) -> Rgba {
        Rgba {
            r: clamp_add_spec(self.r, other.r, OPAQUE),
            g: clamp_add_spec(self.g, other.g, OPAQUE),
            b: clamp_add_spec(self.b, other.b, OPAQUE),
            a: OPAQUE,
        }
    }

    /// The saturating sum of three pixels' colours, added left to right,
    /// fully opaque.
    pub open spec fn spec_sum3(self, second: Rgba, third: Rgba) -> Rgba {
        Rgba {
            r: clamp_add_spec(clamp_add_spec(self.r, second.r, OPAQUE), third.r, OPAQUE),
            g: clamp_add_spec(clamp_add_spec(self.g, second.g, OPAQUE), third.g, OPAQUE),
            b: clamp_add_spec(clamp_add_spec(self.b, second.b, OPAQUE), third.b, OPAQUE),
            a: OPAQUE,
        }
    }

    /// The colours of `self` less those of `other`, floored at zero, fully
    /// opaque.
    pub open spec fn spec_difference(self, other: Rgba) -> Rgba {
        Rgba {
            r: clamp_sub_spec(self.r, other.r, OPAQUE),
            g: clamp_sub_spec(self.g, other.g, OPAQUE),
            b: clamp_sub_spec(self.b, other.b, OPAQUE),
            a: OPAQUE,
        }
    }

    /// Adds the colour channels of two pixels, each held at 255, and makes
    /// the result opaque.
    #[verifier::when_used_as_spec(spec_sum)]
    pub fn sum(self, other: Rgba) -> (s: Rgba)
        ensures
            s == self.spec_sum(other),
    {
        Rgba {
            r: clamp_add(self.r, other.r, OPAQUE),
            g: clamp_add(self.g, other.g, OPAQUE),
            b: clamp_add(self.b, other.b, OPAQUE),
            a: OPAQUE,
        }
    }

    /// Adds the colour channels of three pixels, clamping after each
    /// addition, and makes the result opaque.
    #[verifier::when_used_as_spec(spec_sum3)]
    pub fn sum3(self, second: Rgba, third: Rgba) -> (s: Rgba)
        ensures
            s == self.spec_sum3(second, third),
    {
        Rgba {
            r: clamp_add(clamp_add(self.r, second.r, OPAQUE), third.r, OPAQUE),
            g: clamp_add(clamp_add(self.g, second.g, OPAQUE), third.g, OPAQUE),
            b: clamp_add(clamp_add(self.b, second.b, OPAQUE), third.b, OPAQUE),
            a: OPAQUE,
        }
    }

    /// Subtracts the colour channels of `other` from those of `self`, each
    /// floored at zero, and makes the result opaque.
    #[verifier::when_used_as_spec(spec_difference)]
    pub fn difference(self, other: Rgba) -> (s: Rgba)
        ensures
            s == self.spec_difference(other),
    {
        Rgba {
            r: clamp_sub(self.r, other.r, OPAQUE),
            g: clamp_sub(self.g, other.g, OPAQUE),
            b: clamp_sub(self.b, other.b, OPAQUE),
            a: OPAQUE,
        }
    }
}

/// Adding a third pixel to the sum of two is the three-way sum.
pub proof fn lemma_sum_of_sum(p: Rgba, q: Rgba, r: Rgba)
    ensures
        p.spec_sum(q).spec_sum(r) == p.spec_sum3(q, r),
{
}

/// The sum of two pixels does not depend on their order.
pub proof fn lemma_sum_commutative(p: Rgba, q: Rgba)
    ensures
        p.spec_sum(q) == q.spec_sum(p),
{
}

/// The sum of three pixels does not depend on how the additions are grouped.
pub proof fn lemma_sum_associative(p: Rgba, q: Rgba, r: Rgba)
    ensures
        p.spec_sum(q).spec_sum(r) == p.spec_sum(q.spec_sum(r)),
{
}

} // verus!
