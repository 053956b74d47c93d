use vstd::prelude::*;

verus! {

use vstd::arithmetic::div_mod::{
    lemma_div_is_ordered, lemma_div_is_ordered_by_denominator, lemma_div_multiples_vanish,
    lemma_div_of0, lemma_div_pos_is_pos,
};
use vstd::arithmetic::mul::lemma_mul_inequality;

/// Absolute value of a mathematical integer.
pub open spec fn iabs(x: int) -> int {
    if x < 0 {
        -x
    } else {
        x
    }
}

/// Division of `p` by a positive `d`, rounded toward zero, the way Rust's
/// `/` rounds on machine integers.
pub open spec fn tdiv(p: int, d: int) -> int {
    if p >= 0 {
        p / d
    } else {
        -((-p) / d)
    }
}

/// `a * b / d`, rounded toward zero.
pub open spec fn mdiv(a: int, b: int, d: int) -> int {
    tdiv(a * b, d)
}

/// Larger of two integers.
pub open spec fn max_i(a: int, b: int) -> int {
    if a >= b {
        a
    } else {
        b
    }
}

/// `r` is the integer square root of `n`, rounded down.
pub open spec fn is_sqrt_floor(n: int, r: int) -> bool {
    0 <= r && r * r <= n && n < (r + 1) * (r + 1)
}

/// The integer square root of `n`, rounded down.
pub open spec fn sqrt_floor(n: int) -> int {
    choose|r: int| is_sqrt_floor(n, r)
}

/// Every nonnegative integer has a rounded-down square root.
pub proof fn lemma_sqrt_floor_exists(n: int)
    requires
        n >= 0,
    ensures
        is_sqrt_floor(n, sqrt_floor(n)),
    decreases n,
{
    if n == 0 {
        assert(is_sqrt_floor(0, 0));
    } else {
        lemma_sqrt_floor_exists(n - 1);
        let r = sqrt_floor(n - 1);
        if (r + 1) * (r + 1) <= n {
            assert(n - 1 < (r + 1) * (r + 1));
            assert(n == (r + 1) * (r + 1));
            assert((r + 1) + 1 >= 0 && (r + 2) * (r + 2) > (r + 1) * (r + 1)) by (nonlinear_arith)
                requires
                    r >= 0,
            ;
            assert(is_sqrt_floor(n, r + 1));
        } else {
            assert(is_sqrt_floor(n, r));
        }
    }
    assert(exists|r: int| is_sqrt_floor(n, r));
}

/// The rounded-down square root is unique.
pub proof fn lemma_sqrt_floor_unique(n: int, r: int)
    requires
        n >= 0,
        is_sqrt_floor(n, r),
    ensures
        r == sqrt_floor(n),
{
    lemma_sqrt_floor_exists(n);
    let s = sqrt_floor(n);
    if r < s {
        assert((r + 1) * (r + 1) <= s * s) by (nonlinear_arith)
            requires
                0 <= r,
                r < s,
        ;
        assert(false);
    } else if s < r {
        assert((s + 1) * (s + 1) <= r * r) by (nonlinear_arith)
            requires
                0 <= s,
                s < r,
        ;
        assert(false);
    }
}

/// The square root of a sum of two squares is at least the magnitude of
/// either component.
pub proof fn lemma_sqrt_ge_component(dx: int, dy: int)
    ensures
        iabs(dx) <= sqrt_floor(dx * dx + dy * dy),
{
    let n = dx * dx + dy * dy;
    assert(dx * dx >= 0 && dy * dy >= 0) by (nonlinear_arith);
    lemma_sqrt_floor_exists(n);
    let s = sqrt_floor(n);
    if iabs(dx) > s {
        assert(iabs(dx) * iabs(dx) == dx * dx) by (nonlinear_arith);
        assert((s + 1) * (s + 1) <= iabs(dx) * iabs(dx)) by (nonlinear_arith)
            requires
                0 <= s,
                s + 1 <= iabs(dx),
        ;
        assert(false);
    }
}

/// An upper bound on the square root from an upper bound on its square.
pub proof fn lemma_sqrt_le(n: int, b: int)
    requires
        0 <= n,
        0 <= b,
        n < (b + 1) * (b + 1),
    ensures
        sqrt_floor(n) <= b,
{
    lemma_sqrt_floor_exists(n);
    let s = sqrt_floor(n);
    if s > b {
        assert((b + 1) * (b + 1) <= s * s) by (nonlinear_arith)
            requires
                0 <= b,
                b < s,
        ;
        assert(false);
    }
}

/// The magnitude of a rounded-toward-zero quotient is the quotient of the
/// magnitudes, and never exceeds the numerator's magnitude.
pub proof fn lemma_tdiv_abs(p: int, d: int)
    requires
        d > 0,
    ensures
        iabs(tdiv(p, d)) == iabs(p) / d,
        iabs(tdiv(p, d)) <= iabs(p),
{
    if p >= 0 {
        lemma_div_pos_is_pos(p, d);
    } else {
        lemma_div_pos_is_pos(-p, d);
    }
    assert(iabs(p) <= iabs(p) * d) by (nonlinear_arith)
        requires
            d >= 1,
            iabs(p) >= 0,
    ;
    lemma_div_is_ordered(iabs(p), iabs(p) * d, d);
    lemma_div_multiples_vanish(iabs(p), d);
    assert(iabs(p) * d == d * iabs(p)) by (nonlinear_arith);
}

/// Negating the numerator negates a rounded-toward-zero quotient.
pub proof fn lemma_tdiv_neg(p: int, d: int)
    requires
        d > 0,
    ensures
        tdiv(-p, d) == -tdiv(p, d),
{
    if p == 0 {
        lemma_div_of0(d);
    }
}

/// The magnitude of a product is the product of the magnitudes.
pub proof fn lemma_abs_mul(a: int, b: int)
    ensures
        iabs(a * b) == iabs(a) * iabs(b),
{
    if a >= 0 && b >= 0 {
        assert(a * b >= 0) by (nonlinear_arith)
            requires
                a >= 0,
                b >= 0,
        ;
    } else if a >= 0 && b < 0 {
        assert(a * b <= 0 && a * (-b) == -(a * b)) by (nonlinear_arith)
            requires
                a >= 0,
                b < 0,
        ;
    } else if a < 0 && b >= 0 {
        assert(a * b <= 0 && (-a) * b == -(a * b)) by (nonlinear_arith)
            requires
                a < 0,
                b >= 0,
        ;
    } else {
        assert(a * b >= 0 && (-a) * (-b) == a * b) by (nonlinear_arith)
            requires
                a < 0,
                b < 0,
        ;
    }
}

/// Scaling a value by a ratio `b / d` with `|b| <= d` cannot grow its
/// magnitude.
pub proof fn lemma_mdiv_le(a: int, b: int, d: int)
    requires
        d > 0,
        iabs(b) <= d,
    ensures
        iabs(mdiv(a, b, d)) <= iabs(a),
{
    lemma_abs_mul(a, b);
    lemma_tdiv_abs(a * b, d);
    lemma_mul_inequality(iabs(b), d, iabs(a));
    assert(iabs(b) * iabs(a) == iabs(a) * iabs(b)) by (nonlinear_arith);
    assert(d * iabs(a) == iabs(a) * d) by (nonlinear_arith);
    lemma_div_is_ordered(iabs(a) * iabs(b), iabs(a) * d, d);
    lemma_div_multiples_vanish(iabs(a), d);
    assert(iabs(a) * d == d * iabs(a)) by (nonlinear_arith);
}

/// A quotient of bounded numerator over a bounded-below denominator is
/// bounded by the quotient of the bounds.
pub proof fn lemma_div_bound(x: int, d: int, xmax: int, dmin: int)
    requires
        0 <= x <= xmax,
        0 < dmin <= d,
    ensures
        0 <= x / d <= xmax / dmin,
{
    lemma_div_pos_is_pos(x, d);
    lemma_div_is_ordered(x, xmax, d);
    lemma_div_is_ordered_by_denominator(xmax, dmin, d);
}

/// Magnitude of an `i64`, as a `u64`.
pub fn abs64(x: i64) -> (r: u64)
    ensures
        r as int == iabs(x as int),
{
    if x >= 0 {
        x as u64
    } else {
        (-(x as i128)) as u64
    }
}

/// Integer square root, rounded down, by binary search.
pub fn isqrt(n: u64) -> (r: u64)
    ensures
        r as int == sqrt_floor(n as int),
        is_sqrt_floor(n as int, r as int),
{
    let mut lo: u64 = 0;
    let mut hi: u64 = if n < 4294967295 {
        n
    } else {
        4294967295
    };
    proof {
        assert((n as int) < ((hi as int) + 1) * ((hi as int) + 1)) by (nonlinear_arith)
            requires
                hi == if (n as int) < 4294967295 {
                    n as int
                } else {
                    4294967295
                },
                n <= u64::MAX,
        ;
    }
    while lo < hi
        invariant
            lo <= hi <= 4294967295,
            (lo as int) * (lo as int) <= n as int,
            (n as int) < ((hi as int) + 1) * ((hi as int) + 1),
        decreases hi - lo,
    {
        let mid: u64 = lo + (hi - lo + 1) / 2;
        proof {
            assert((mid as int) * (mid as int) <= 0xffff_ffff_ffff_ffff) by (nonlinear_arith)
                requires
                    0 <= mid as int <= 4294967295,
            ;
        }
        let sq: u128 = (mid as u128) * (mid as u128);
        if sq <= n as u128 {
            lo = mid;
        } else {
            hi = mid - 1;
        }
    }
    proof {
        lemma_sqrt_floor_unique(n as int, lo as int);
    }
    lo
}

/// `a * b / d` on machine integers, rounded toward zero, computed without
/// intermediate overflow.
pub fn mul_div(a: i64, b: i64, d: i64) -> (r: i64)
    requires
        d > 0,
        iabs((a as int) * (b as int)) / (d as int) <= i64::MAX,
    ensures
        r as int == mdiv(a as int, b as int, d as int),
        iabs(r as int) == iabs((a as int) * (b as int)) / (d as int),
{
    let au = abs64(a);
    let bu = abs64(b);
    proof {
        assert((au as int) * (bu as int) <= u128::MAX) by (nonlinear_arith)
            requires
                (au as int) <= 0xffff_ffff_ffff_ffff,
                (bu as int) <= 0xffff_ffff_ffff_ffff,
                (au as int) >= 0,
                (bu as int) >= 0,
        ;
    }
    let p: u128 = (au as u128) * (bu as u128);
    let q: u128 = p / (d as u128);
    proof {
        lemma_abs_mul(a as int, b as int);
        lemma_tdiv_abs((a as int) * (b as int), d as int);
    }
    let qi: i64 = q as i64;
    if (a < 0) != (b < 0) {
        proof {
            assert((a as int) * (b as int) <= 0) by (nonlinear_arith)
                requires
                    (a < 0) != (b < 0),
            ;
            if (a as int) * (b as int) == 0 {
                lemma_div_of0(d as int);
            }
        }
        -qi
    } else {
        proof {
            assert((a as int) * (b as int) >= 0) by (nonlinear_arith)
                requires
                    (a < 0) == (b < 0),
            ;
        }
        qi
    }
}

} // verus!
