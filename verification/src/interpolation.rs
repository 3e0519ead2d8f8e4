//! The easing curve that smooths the grid cursor's visual motion.
//!
//! The curve is the ease-in/ease-out quartic `f(t) = t^2 * (t - 2)^2`
//! for `t` in `[0, 1]`, evaluated here in integer fixed point: the
//! fraction `t` is given as `num / den` and the result is returned
//! scaled by the same denominator, so that `ease(num, den) / den`
//! approximates `f(num / den)`.

use vstd::prelude::*;

verus! {

/// Largest denominator `ease` accepts; keeps the quartic numerator in `i64`.
pub const EASE_DEN_LIMIT: i64 = 0x8000;

/// The quartic easing value, scaled by `den`: with `t` the argument
/// clamped into `[0, den]`, this is `(t * (2 * den - t))^2 / den^3`,
/// the fixed-point form of `t^2 * (t - 2)^2` on the unit interval.
pub open spec fn ease_spec(num: int, den: int) -> int {
    let t = if num <= 0 {
        0
    } else if num >= den {
        den
    } else {
        num
    };
    let p = t * (2 * den - t);
    (p * p) / (den * den * den)
}

/// Evaluate the cursor easing curve at the fraction `num / den`, in
/// fixed point scaled by `den`.  The result stays within `[0, den]`:
/// the curve starts at rest, ends at rest, and never overshoots.
pub fn ease(num: i64, den: i64) -> (r: i64)
    requires
        1 <= den <= EASE_DEN_LIMIT,
    ensures
        r == ease_spec(num as int, den as int),
        0 <= r <= den,
        num <= 0 ==> r == 0,
        num >= den ==> r == den,
{
    let t: i64 = if num <= 0 {
        0
    } else if num >= den {
        den
    } else {
        num
    };
    proof {
        let d = den as int;
        assert(0 <= t * (2 * d - t) && t * (2 * d - t) <= d * d) by (nonlinear_arith)
            requires
                0 <= t <= d,
                1 <= d,
        ;
        assert(1 <= d * d * d <= 0x2000_0000_0000 && d * d <= 0x4000_0000) by (nonlinear_arith)
            requires
                1 <= d <= 0x8000,
        ;
    }
    let p: i64 = t * (2 * den - t);
    let cube: i64 = den * den * den;
    proof {
        let d = den as int;
        assert(p * p <= d * (d * d * d) && p * p <= 0x1000_0000_0000_0000) by (nonlinear_arith)
            requires
                0 <= p <= d * d,
                1 <= d,
                d * d <= 0x4000_0000,
        ;
    }
    let r: i64 = (p * p) / cube;
    proof {
        let d = den as int;
        vstd::arithmetic::div_mod::lemma_div_pos_is_pos((p * p) as int, d * d * d);
        vstd::arithmetic::div_mod::lemma_div_is_ordered(
            (p * p) as int,
            d * (d * d * d),
            d * d * d,
        );
        vstd::arithmetic::div_mod::lemma_div_by_multiple(d, d * d * d);
        if num as int >= d {
            assert(p == d * d);
            assert((p * p) as int == d * (d * d * d)) by (nonlinear_arith)
                requires
                    p == d * d,
            ;
        }
        if num <= 0 {
            assert(p == 0);
            vstd::arithmetic::div_mod::lemma_div_of0(d * d * d);
        }
    }
    r
}

} // verus!
