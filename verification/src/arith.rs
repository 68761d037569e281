//! Saturating arithmetic on 8-bit channel samples.

use vstd::prelude::*;

verus! {

/// The sum of two samples, held at `max` once it would pass it.
pub open spec fn clamp_add_spec(a: u8, b: u8, max: u8) -> u8 {
    if a + b > max {
        max
    } else {
        (a + b) as u8
    }
}

/// The difference of two samples: zero where `b` exceeds `a`, and never more
/// than `max`.
pub open spec fn clamp_sub_spec(a: u8, b: u8, max: u8) -> u8 {
    if a < b {
        0
    } else if a - b > max {
        max
    } else {
        (a - b) as u8
    }
}

/// Adds two samples without wrapping; a sum above `max` becomes `max`.
pub fn clamp_add(a: u8, b: u8, max: u8) -> (r: u8)
    ensures
        r == clamp_add_spec(a, b, max),
        r <= max,
        a <= max && b <= max ==> r >= a && r >= b,
{
    if a as u16 + b as u16 > max as u16 {
        max
    } else {
        a + b
    }
}

/// Subtracts `b` from `a` without wrapping; a negative difference becomes
/// zero, and one above `max` becomes `max`.
pub fn clamp_sub(a: u8, b: u8, max: u8) -> (r: u8)
    ensures
        r == clamp_sub_spec(a, b, max),
        r <= a,
        r <= max,
{
    if a < b {
        0
    } else {
        let d: u8 = a - b;
        if d > max {
            max
        } else {
            d
        }
    }
}

/// Against the full 8-bit range a saturating sum is at least each of its
/// operands and at most 255, and a saturating difference lies between zero
/// and its first operand.
pub proof fn lemma_clamp_bounds(a: u8, b: u8)
    ensures
        clamp_add_spec(a, b, 255) >= a,
        clamp_add_spec(a, b, 255) >= b,
        clamp_add_spec(a, b, 255) <= 255,
        clamp_sub_spec(a, b, 255) <= a,
        clamp_sub_spec(a, b, 255) >= 0,
{
}

/// The saturating sum does not depend on the order of its operands.
pub proof fn lemma_clamp_add_commutative(a: u8, b: u8, max: u8)
    ensures
        clamp_add_spec(a, b, max) == clamp_add_spec(b, a, max),
{
}

/// Summing three samples under one ceiling gives the same result however the
/// two additions are grouped.
pub proof fn lemma_clamp_add_associative(a: u8, b: u8, c: u8, max: u8)
    ensures
        clamp_add_spec(clamp_add_spec(a, b, max), c, max) == clamp_add_spec(
            a,
            clamp_add_spec(b, c, max),
            max,
        ),
{
}

} // verus!
