//! Random draws as plain numbers.
//!
//! A draw `d` stands for the fraction `d / DRAW_STEPS` of the half-open unit
//! interval. Whoever owns a source of randomness makes the draws; the library
//! only scales them.

use vstd::prelude::*;

verus! {

/// The number of equal steps into which a draw divides the unit interval.
pub const DRAW_STEPS: u64 = 0x1_0000_0000;

/// One random point of the unit square: a fraction for each axis.
pub type Draw = (u32, u32);

/// The whole part of `span * draw / DRAW_STEPS`, rounded toward zero.
pub open spec fn scale(draw: u32, span: int) -> int {
    if span >= 0 {
        (draw as int * span) / (DRAW_STEPS as int)
    } else {
        -((draw as int * (-span)) / (DRAW_STEPS as int))
    }
}

/// A scaled draw lies between zero and the span, and never reaches a span
/// other than zero.
pub proof fn lemma_scale_bounds(draw: u32, span: int)
    ensures
        span > 0 ==> 0 <= scale(draw, span) < span,
        span < 0 ==> span < scale(draw, span) <= 0,
        span == 0 ==> scale(draw, span) == 0,
{
    let d = draw as int;
    let steps = DRAW_STEPS as int;
    let m = if span >= 0 { span } else { -span };
    let p = d * m;
    if m > 0 {
        assert(0 <= p < steps * m) by (nonlinear_arith)
            requires
                p == d * m,
                0 <= d < steps,
                m > 0,
        ;
        assert(0 <= p / steps < m) by (nonlinear_arith)
            requires
                0 <= p < steps * m,
                steps > 0,
        ;
    } else {
        assert(p == 0) by (nonlinear_arith)
            requires
                p == d * m,
                m == 0,
        ;
    }
}

/// Scales a draw to an index below `span`.
pub fn scale_index(draw: u32, span: usize) -> (r: usize)
    ensures
        r == scale(draw, span as int),
        span > 0 ==> r < span,
{
    proof {
        lemma_scale_bounds(draw, span as int);
    }
    let product: u128 = (draw as u128) * (span as u128);
    let r: u128 = product / (DRAW_STEPS as u128);
    r as usize
}

/// Scales a draw to an offset of at most `span`, of the same sign as `span`.
pub fn scale_offset(draw: u32, span: i128) -> (r: i128)
    requires
        -0x4_0000_0000_0000_0000 <= span <= 0x4_0000_0000_0000_0000,
    ensures
        r == scale(draw, span as int),
        span >= 0 ==> 0 <= r <= span,
        span <= 0 ==> span <= r <= 0,
{
    proof {
        lemma_scale_bounds(draw, span as int);
    }
    if span >= 0 {
        let product: i128 = (draw as i128) * span;
        product / (DRAW_STEPS as i128)
    } else {
        let product: i128 = (draw as i128) * (-span);
        -(product / (DRAW_STEPS as i128))
    }
}

} // verus!
