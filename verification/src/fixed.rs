//! Fixed-point money arithmetic.
//!
//! A monetary amount is an integer count of 1/10000 dollar, so $0.18 is
//! 1800 and $270.00 is 2700000. Monetary divisions (per-share credit,
//! break-even adjustment, profit per week) truncate toward zero; the
//! week count floors, so a negative day difference rounds down.

use vstd::arithmetic::div_mod::{
    lemma_div_is_ordered, lemma_div_is_ordered_by_denominator, lemma_div_multiples_vanish,
    lemma_div_nonincreasing, lemma_div_pos_is_pos, lemma_fundamental_div_mod,
    lemma_fundamental_div_mod_converse,
};
use vstd::prelude::*;

verus! {

/// Integer division truncated toward zero, for a positive divisor.
pub open spec fn spec_div_trunc(a: int, b: int) -> int
    recommends
        b > 0,
{
    if a >= 0 {
        a / b
    } else {
        -((-a) / b)
    }
}

/// Quotient of `a` by `b`, truncated toward zero.
pub fn div_trunc_i64(a: i64, b: i64) -> (r: i64)
    requires
        b > 0,
        a > i64::MIN,
    ensures
        r == spec_div_trunc(a as int, b as int),
        a >= 0 ==> 0 <= r <= a,
        a < 0 ==> a <= r <= 0,
{
    proof {
        if a >= 0 {
            lemma_div_nonincreasing(a as int, b as int);
            lemma_div_pos_is_pos(a as int, b as int);
        } else {
            lemma_div_nonincreasing(-(a as int), b as int);
            lemma_div_pos_is_pos(-(a as int), b as int);
        }
    }
    match a.checked_div(b) {
        Some(q) => q,
        None => 0,
    }
}

/// Quotient of `a` by `b`, truncated toward zero.
pub fn div_trunc_i128(a: i128, b: i128) -> (r: i128)
    requires
        b > 0,
        a > i128::MIN,
    ensures
        r == spec_div_trunc(a as int, b as int),
        a >= 0 ==> 0 <= r <= a,
        a < 0 ==> a <= r <= 0,
{
    proof {
        if a >= 0 {
            lemma_div_nonincreasing(a as int, b as int);
            lemma_div_pos_is_pos(a as int, b as int);
        } else {
            lemma_div_nonincreasing(-(a as int), b as int);
            lemma_div_pos_is_pos(-(a as int), b as int);
        }
    }
    match a.checked_div(b) {
        Some(q) => q,
        None => 0,
    }
}

/// Quotient of `a` by `b`, rounded toward negative infinity: one less
/// than the truncating quotient when `a` is negative and not divisible.
pub fn div_floor_i64(a: i64, b: i64) -> (r: i64)
    requires
        b > 0,
        a > i64::MIN,
    ensures
        r == a as int / b as int,
{
    let t = div_trunc_i64(a, b);
    if a >= 0 {
        proof {
            assert(t == a as int / b as int);
        }
        t
    } else {
        let ghost ai: int = a as int;
        let ghost bi: int = b as int;
        let ghost ti: int = t as int;
        let ghost q: int = (-ai) / bi;
        let ghost rem: int = (-ai) % bi;
        proof {
            lemma_fundamental_div_mod(-ai, bi);
            assert(-ai == bi * q + rem);
            assert(0 <= rem < bi);
            assert(ti == -q);
            assert(bi * ti == -(bi * q)) by (nonlinear_arith)
                requires
                    ti == -q,
            ;
            assert(ai == bi * ti - rem);
            assert(i64::MIN < bi * ti <= 0);
        }
        let prod: i64 = t * b;
        if prod == a {
            proof {
                assert(rem == 0);
                assert(ti * bi == bi * ti) by (nonlinear_arith);
                lemma_fundamental_div_mod_converse(ai, bi, ti, 0);
            }
            t
        } else {
            proof {
                assert(rem != 0);
                assert((ti - 1) * bi + (bi - rem) == bi * ti - rem) by (nonlinear_arith);
                lemma_fundamental_div_mod_converse(ai, bi, ti - 1, bi - rem);
            }
            t - 1
        }
    }
}

/// Dividing a value of magnitude at most `d * cap` by at least `d`
/// gives a quotient of magnitude at most `cap`.
pub proof fn lemma_div_trunc_small(a: int, b: int, d: int, cap: int)
    requires
        b >= d >= 1,
        cap >= 0,
        -(d * cap) <= a <= d * cap,
    ensures
        -cap <= spec_div_trunc(a, b) <= cap,
{
    if a >= 0 {
        lemma_div_pos_is_pos(a, b);
        lemma_div_is_ordered_by_denominator(a, d, b);
        lemma_div_is_ordered(a, d * cap, d);
        lemma_div_multiples_vanish(cap, d);
    } else {
        lemma_div_pos_is_pos(-a, b);
        lemma_div_is_ordered_by_denominator(-a, d, b);
        lemma_div_is_ordered(-a, d * cap, d);
        lemma_div_multiples_vanish(cap, d);
    }
}

} // verus!
