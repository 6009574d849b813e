//! Integer helpers for the fixed-point arithmetic that the renderer uses:
//! truncating division, integer square root, and magnitude lemmas.
use vstd::prelude::*;
use vstd::arithmetic::div_mod::{lemma_div_pos_is_pos, lemma_fundamental_div_mod};

verus! {

/// Quotient of `a` by a positive divisor `b`, rounded toward zero
/// (the rounding that binary floating point and hardware division share).
pub open spec fn div_t(a: int, b: int) -> int {
    if a >= 0 {
        a / b
    } else {
        -((-a) / b)
    }
}

/// The floor of the square root of a nonnegative integer.
pub open spec fn sqrt_floor(n: int) -> int {
    choose|r: int| 0 <= r && #[trigger] (r * r) <= n && n < (r + 1) * (r + 1)
}

/// No two distinct nonnegative integers both bracket `n` as its root floor.
pub proof fn lemma_sqrt_unique(n: int, a: int, b: int)
    by (nonlinear_arith)
    requires
        0 <= a,
        0 <= b,
        a * a <= n,
        n < (a + 1) * (a + 1),
        b * b <= n,
        n < (b + 1) * (b + 1),
    ensures
        a == b,
{
}

/// `sqrt_floor` is well defined: the bracketing root floor exists.
pub proof fn lemma_sqrt_floor(n: int)
    requires
        0 <= n,
    ensures
        0 <= sqrt_floor(n),
        sqrt_floor(n) * sqrt_floor(n) <= n,
        n < (sqrt_floor(n) + 1) * (sqrt_floor(n) + 1),
    decreases n,
{
    if n == 0 {
        assert(0 * 0 <= 0 && 0 < (0 + 1) * (0 + 1)) by (nonlinear_arith);
        assert(exists|r: int| 0 <= r && #[trigger] (r * r) <= n && n < (r + 1) * (r + 1));
    } else {
        lemma_sqrt_floor(n - 1);
        let p = sqrt_floor(n - 1);
        if (p + 1) * (p + 1) == n {
            assert(0 <= p + 1 && (p + 1) * (p + 1) <= n && n < (p + 1 + 1) * (p + 1 + 1))
                by (nonlinear_arith)
                requires
                    0 <= p && (p + 1) * (p + 1) == n,
            ;
            assert(exists|r: int| 0 <= r && #[trigger] (r * r) <= n && n < (r + 1) * (r + 1));
        } else {
            assert(p * p <= n - 1 < n);
            assert(n < (p + 1) * (p + 1));
            assert(exists|r: int| 0 <= r && #[trigger] (r * r) <= n && n < (r + 1) * (r + 1));
        }
    }
}

/// A product is bounded by the product of the factors' bounds.
pub proof fn lemma_mul_abs_bound(a: int, b: int, aa: int, bb: int)
    by (nonlinear_arith)
    requires
        -aa <= a <= aa,
        -bb <= b <= bb,
    ensures
        -(aa * bb) <= a * b <= aa * bb,
{
}

/// A three-term sum of products is bounded componentwise.
pub proof fn lemma_dot_abs_bound(
    ax: int, ay: int, az: int,
    bx: int, by: int, bz: int,
    aa: int, bb: int,
)
    by (nonlinear_arith)
    requires
        -aa <= ax <= aa,
        -aa <= ay <= aa,
        -aa <= az <= aa,
        -bb <= bx <= bb,
        -bb <= by <= bb,
        -bb <= bz <= bb,
    ensures
        -(3 * aa * bb) <= ax * bx + ay * by + az * bz <= 3 * aa * bb,
{
}

/// Truncating division keeps the sign of a nonnegative dividend.
pub proof fn lemma_div_t_nonneg(a: int, b: int)
    requires
        0 <= a,
        0 < b,
    ensures
        0 <= div_t(a, b),
{
    lemma_div_pos_is_pos(a, b);
}

/// The magnitude of a truncating quotient never exceeds the dividend's.
pub proof fn lemma_div_t_abs_le(a: int, b: int)
    requires
        0 < b,
    ensures
        -(if a >= 0 { a } else { -a }) <= div_t(a, b) <= (if a >= 0 { a } else { -a }),
{
    if a >= 0 {
        lemma_div_pos_is_pos(a, b);
        lemma_quot_le_dividend(a, b);
    } else {
        lemma_div_pos_is_pos(-a, b);
        lemma_quot_le_dividend(-a, b);
    }
}

/// For a nonnegative dividend the quotient is at most the dividend.
pub proof fn lemma_quot_le_dividend(a: int, b: int)
    requires
        0 <= a,
        0 < b,
    ensures
        a / b <= a,
{
    lemma_fundamental_div_mod(a, b);
    lemma_div_pos_is_pos(a, b);
    assert(a == b * (a / b) + a % b);
    assert(b * (a / b) >= 1 * (a / b)) by (nonlinear_arith)
        requires
            b >= 1 && a / b >= 0,
    ;
}

/// A quotient scaled back by its divisor stays within the dividend's magnitude.
pub proof fn lemma_div_t_scaled_bound(a: int, b: int, m: int)
    requires
        0 < b,
        0 <= m,
        -(m * b) <= a <= m * b,
    ensures
        -m <= div_t(a, b) <= m,
{
    if a >= 0 {
        lemma_div_pos_is_pos(a, b);
        assert(a / b <= m) by (nonlinear_arith)
            requires
                0 < b && 0 <= a <= m * b && 0 <= m && a / b >= 0,
        ;
    } else {
        lemma_div_pos_is_pos(-a, b);
        assert((-a) / b <= m) by (nonlinear_arith)
            requires
                0 < b && 0 <= -a <= m * b && 0 <= m && (-a) / b >= 0,
        ;
    }
}

/// Exact cancellation: dividing a multiple of `b` by `b` gives the factor back.
pub proof fn lemma_div_t_exact(k: int, b: int)
    requires
        0 < b,
    ensures
        div_t(k * b, b) == k,
{
    assert((k * b) / b == k && ((-(k * b)) == (-k) * b)) by (nonlinear_arith)
        requires
            0 < b,
    ;
    if k * b < 0 {
        assert(((-k) * b) / b == -k) by (nonlinear_arith)
            requires
                0 < b,
        ;
    }
}

/// Executable truncating division on wide integers.
pub fn div_fp(a: i128, b: i128) -> (r: i128)
    requires
        0 < b,
        i128::MIN < a,
    ensures
        r == div_t(a as int, b as int),
{
    if a >= 0 {
        let q: u128 = (a as u128) / (b as u128);
        proof {
            lemma_div_pos_is_pos(a as int, b as int);
            lemma_bridge_nonneg(a as int, b as int);
            lemma_quot_le_dividend(a as int, b as int);
        }
        q as i128
    } else {
        let n: i128 = -a;
        let q: u128 = (n as u128) / (b as u128);
        proof {
            lemma_div_pos_is_pos(n as int, b as int);
            lemma_bridge_nonneg(n as int, b as int);
            lemma_quot_le_dividend(n as int, b as int);
        }
        -(q as i128)
    }
}

/// Euclidean division of nonnegative integers agrees across the integer widths.
proof fn lemma_bridge_nonneg(a: int, b: int)
    requires
        0 <= a,
        0 < b,
    ensures
        a / b == div_t(a, b),
{
}

/// Executable floor of the square root.
pub fn isqrt(n: u128) -> (r: u64)
    requires
        n < 0x40000000000000000000000000000000u128,
    ensures
        r == sqrt_floor(n as int),
        (r as int) * (r as int) <= n as int,
        (n as int) < (r as int + 1) * (r as int + 1),
{
    let mut lo: u128 = 0;
    let mut hi: u128 = 0x8000000000000000u128;
    proof {
        assert((0x8000000000000000u128 as int) * (0x8000000000000000u128 as int)
            == 0x40000000000000000000000000000000u128 as int) by (nonlinear_arith);
    }
    while hi - lo > 1
        invariant
            lo < hi <= 0x8000000000000000u128,
            (lo as int) * (lo as int) <= n as int,
            (n as int) < (hi as int) * (hi as int),
        decreases hi - lo,
    {
        let mid: u128 = lo + (hi - lo) / 2;
        proof {
            assert((mid as int) * (mid as int) <= (0x8000000000000000u128 as int)
                * (0x8000000000000000u128 as int)) by (nonlinear_arith)
                requires
                    0 <= mid as int <= 0x8000000000000000u128 as int,
            ;
            assert((0x8000000000000000u128 as int) * (0x8000000000000000u128 as int)
                == 0x40000000000000000000000000000000u128 as int) by (nonlinear_arith);
        }
        let sq: u128 = mid * mid;
        if sq <= n {
            lo = mid;
        } else {
            hi = mid;
        }
    }
    proof {
        lemma_sqrt_floor(n as int);
        lemma_sqrt_unique(n as int, lo as int, sqrt_floor(n as int));
    }
    lo as u64
}

} // verus!
