//! Fixed-point scalar arithmetic.
//!
//! A scalar is an `i64` holding a real number scaled by `FP_ONE`: the
//! stored value `v` stands for the real number `v / FP_ONE`. Division
//! truncates toward zero, mirrored in specifications by `div_t`, and
//! square roots round down, characterised by `is_sqrt`.

use vstd::prelude::*;
use vstd::arithmetic::div_mod::lemma_div_is_ordered;
use vstd::arithmetic::div_mod::lemma_div_by_multiple;
use vstd::arithmetic::div_mod::lemma_div_pos_is_pos;

verus! {

/// One unit, as a fixed-point scalar: stored values are scaled by this.
pub const FP_ONE: i64 = 65536;

/// Truncating division on unbounded integers: rounds toward zero,
/// as machine division of signed integers does.
pub open spec fn div_t(x: int, d: int) -> int
    recommends
        d > 0,
{
    if x >= 0 {
        x / d
    } else {
        -((-x) / d)
    }
}

/// `r` is the integer square root of `n`: the largest integer whose
/// square does not exceed `n`.
pub open spec fn is_sqrt(n: int, r: int) -> bool {
    0 <= r && r * r <= n && n < (r + 1) * (r + 1)
}

/// The integer square root as a spec-level function.
pub open spec fn sqrt_floor(n: int) -> int {
    choose|r: int| #[trigger] is_sqrt(n, r)
}

pub proof fn lemma_sqrt_unique(n: int, a: int, b: int)
    by (nonlinear_arith)
    requires
        is_sqrt(n, a),
        is_sqrt(n, b),
    ensures
        a == b,
{
}

/// Every nonnegative integer has an integer square root.
pub proof fn lemma_sqrt_exists(n: int)
    requires
        n >= 0,
    ensures
        is_sqrt(n, sqrt_floor(n)),
    decreases n,
{
    if n == 0 {
        assert(is_sqrt(0, 0));
    } else {
        lemma_sqrt_exists(n - 1);
        let p = choose|r: int| #[trigger] is_sqrt(n - 1, r);
        if (p + 1) * (p + 1) <= n {
            assert(is_sqrt(n, p + 1)) by (nonlinear_arith)
                requires
                    is_sqrt(n - 1, p),
                    (p + 1) * (p + 1) <= n,
            ;
        } else {
            assert(is_sqrt(n, p));
        }
    }
    let w = choose|r: int| #[trigger] is_sqrt(n, r);
    assert(is_sqrt(n, w));
}

/// Ties any witness of `is_sqrt` to `sqrt_floor`.
pub proof fn lemma_sqrt_floor(n: int, r: int)
    requires
        is_sqrt(n, r),
    ensures
        sqrt_floor(n) == r,
{
    assert(n >= 0) by (nonlinear_arith)
        requires
            is_sqrt(n, r),
    ;
    lemma_sqrt_exists(n);
    lemma_sqrt_unique(n, sqrt_floor(n), r);
}

/// Integer square roots never decrease when their argument grows.
pub proof fn lemma_sqrt_ordered(n1: int, n2: int)
    requires
        0 <= n1 <= n2,
    ensures
        sqrt_floor(n1) <= sqrt_floor(n2),
{
    lemma_sqrt_exists(n1);
    lemma_sqrt_exists(n2);
    assert(sqrt_floor(n1) <= sqrt_floor(n2)) by (nonlinear_arith)
        requires
            is_sqrt(n1, sqrt_floor(n1)),
            is_sqrt(n2, sqrt_floor(n2)),
            n1 <= n2,
    ;
}

/// Truncating division negates with its dividend.
pub proof fn lemma_div_t_neg(x: int, d: int)
    requires
        d > 0,
    ensures
        div_t(-x, d) == -div_t(x, d),
{
}

/// Dividing an exact multiple recovers the factor.
pub proof fn lemma_div_t_mul_cancel(x: int, d: int)
    requires
        d > 0,
    ensures
        div_t(x * d, d) == x,
{
    if x >= 0 {
        lemma_div_by_multiple(x, d);
    } else {
        lemma_div_by_multiple(-x, d);
        assert(-(x * d) == (-x) * d) by (nonlinear_arith);
    }
}

/// A nonnegative dividend gives a nonnegative quotient, no larger
/// than the dividend itself.
pub proof fn lemma_div_t_nonneg(x: int, d: int)
    requires
        x >= 0,
        d > 0,
    ensures
        0 <= div_t(x, d) <= x,
{
    lemma_div_pos_is_pos(x, d);
    if d == 1 {
        lemma_div_t_mul_cancel(x, 1);
    } else {
        vstd::arithmetic::div_mod::lemma_fundamental_div_mod(x, d);
        vstd::arithmetic::div_mod::lemma_mod_bound(x, d);
        assert(x / d <= x) by (nonlinear_arith)
            requires
                x >= 0,
                d >= 2,
                x / d >= 0,
                x == d * (x / d) + x % d,
                x % d >= 0,
        ;
    }
}

/// Truncating division is monotone in its dividend.
pub proof fn lemma_div_t_ordered(x1: int, x2: int, d: int)
    requires
        x1 <= x2,
        d > 0,
    ensures
        div_t(x1, d) <= div_t(x2, d),
{
    if x1 >= 0 {
        lemma_div_is_ordered(x1, x2, d);
    } else if x2 < 0 {
        lemma_div_is_ordered(-x2, -x1, d);
    } else {
        lemma_div_pos_is_pos(-x1, d);
        lemma_div_pos_is_pos(x2, d);
    }
}

/// A dividend within `b * d` of zero gives a quotient within `b` of zero.
pub proof fn lemma_div_t_bound(x: int, d: int, b: int)
    requires
        d > 0,
        b >= 0,
        -(b * d) <= x <= b * d,
    ensures
        -b <= div_t(x, d) <= b,
{
    lemma_div_t_mul_cancel(b, d);
    lemma_div_t_mul_cancel(-b, d);
    lemma_div_t_ordered(x, b * d, d);
    assert((-b) * d == -(b * d)) by (nonlinear_arith);
    lemma_div_t_ordered((-b) * d, x, d);
}

/// The product of two scalars within given bounds stays within the
/// product of the bounds.
pub proof fn lemma_mul_bound(x: int, y: int, bx: int, by: int)
    by (nonlinear_arith)
    requires
        0 <= bx,
        0 <= by,
        -bx <= x <= bx,
        -by <= y <= by,
    ensures
        -(bx * by) <= x * y <= bx * by,
{
}

/// Truncating division brackets its dividend: `d * |q|` never
/// exceeds `|x|`, which stays below `d * (|q| + 1)`.
pub proof fn lemma_div_t_abs_range(x: int, d: int)
    requires
        d > 0,
    ensures
        x >= 0 ==> d * div_t(x, d) <= x < d * (div_t(x, d) + 1),
        x < 0 ==> d * (-div_t(x, d)) <= -x < d * ((-div_t(x, d)) + 1),
{
    if x >= 0 {
        vstd::arithmetic::div_mod::lemma_fundamental_div_mod(x, d);
        vstd::arithmetic::div_mod::lemma_mod_bound(x, d);
        assert(d * (div_t(x, d) + 1) == d * div_t(x, d) + d) by (nonlinear_arith);
    } else {
        vstd::arithmetic::div_mod::lemma_fundamental_div_mod(-x, d);
        vstd::arithmetic::div_mod::lemma_mod_bound(-x, d);
        assert(d * ((-div_t(x, d)) + 1) == d * (-div_t(x, d)) + d) by (nonlinear_arith);
    }
}

/// The absolute value of a truncated quotient brackets the absolute
/// value of the dividend.
pub proof fn lemma_div_t_abs_bracket(x: int, d: int, u: int)
    requires
        d > 0,
        u == (if div_t(x, d) >= 0 {
            div_t(x, d)
        } else {
            -div_t(x, d)
        }),
    ensures
        0 <= u,
        d * u <= (if x >= 0 {
            x
        } else {
            -x
        }) < d * (u + 1),
{
    lemma_div_t_abs_range(x, d);
    if x >= 0 {
        lemma_div_pos_is_pos(x, d);
    } else {
        lemma_div_pos_is_pos(-x, d);
    }
}

/// The product of nonnegative scalars is nonnegative.
pub proof fn lemma_mul_nonneg(x: int, y: int)
    by (nonlinear_arith)
    requires
        x >= 0,
        y >= 0,
    ensures
        x * y >= 0,
{
}

/// Truncating division of a machine integer by a positive divisor.
pub fn div_trunc(x: i64, d: i64) -> (r: i64)
    requires
        d > 0,
        x > i64::MIN,
    ensures
        r == div_t(x as int, d as int),
{
    if x >= 0 {
        let q: u64 = (x as u64) / (d as u64);
        proof {
            lemma_div_t_nonneg(x as int, d as int);
        }
        q as i64
    } else {
        let q: u64 = ((-x) as u64) / (d as u64);
        proof {
            lemma_div_t_nonneg(-(x as int), d as int);
        }
        -(q as i64)
    }
}

/// Truncating division of a wide machine integer by a positive divisor.
pub fn div_trunc_wide(x: i128, d: i128) -> (r: i128)
    requires
        d > 0,
        x > i128::MIN,
    ensures
        r == div_t(x as int, d as int),
{
    if x >= 0 {
        let q: u128 = (x as u128) / (d as u128);
        proof {
            lemma_div_t_nonneg(x as int, d as int);
        }
        q as i128
    } else {
        let q: u128 = ((-x) as u128) / (d as u128);
        proof {
            lemma_div_t_nonneg(-(x as int), d as int);
        }
        -(q as i128)
    }
}

/// Integer square root by binary search: the largest `r` with
/// `r * r <= n`.
pub fn isqrt(n: u128) -> (r: u128)
    ensures
        is_sqrt(n as int, r as int),
        r <= 0xFFFF_FFFF_FFFF_FFFFu128,
        r == sqrt_floor(n as int),
{
    let mut lo: u128 = 0;
    let mut hi: u128 = 0xFFFF_FFFF_FFFF_FFFF;
    proof {
        assert((n as int) < (0xFFFF_FFFF_FFFF_FFFFu128 as int + 1) * (0xFFFF_FFFF_FFFF_FFFFu128
            as int + 1)) by (nonlinear_arith)
            requires
                n <= u128::MAX,
        ;
    }
    while lo < hi
        invariant
            lo <= hi,
            hi <= 0xFFFF_FFFF_FFFF_FFFF,
            (lo as int) * (lo as int) <= n as int,
            (n as int) < ((hi as int) + 1) * ((hi as int) + 1),
        decreases hi - lo,
    {
        let mid: u128 = lo + (hi - lo + 1) / 2;
        proof {
            assert(lo < mid <= hi);
            assert((mid as int) * (mid as int) <= (0xFFFF_FFFF_FFFF_FFFFu128 as int)
                * (0xFFFF_FFFF_FFFF_FFFFu128 as int)) by (nonlinear_arith)
                requires
                    0 <= mid <= 0xFFFF_FFFF_FFFF_FFFFu128,
            ;
        }
        if mid * mid <= n {
            lo = mid;
        } else {
            hi = mid - 1;
        }
    }
    proof {
        lemma_sqrt_floor(n as int, lo as int);
    }
    lo
}

} // verus!
