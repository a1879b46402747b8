//! Scaled-integer arithmetic kernel: truncating division, Euclidean
//! division/remainder, and integer square and cube roots, each with an
//! exact contract. All quantities in this crate are integers scaled by a
//! power of ten; `ONE` is the scale used for dimensionless values, for
//! trigonometric values and for angles (nanoradians or nanodegrees).
use vstd::prelude::*;

verus! {

use vstd::arithmetic::div_mod::lemma_fundamental_div_mod;
use vstd::arithmetic::div_mod::lemma_fundamental_div_mod_converse;
use vstd::arithmetic::div_mod::lemma_mod_bound;

/// Scale of dimensionless values, trigonometric values and angles.
pub const ONE: i64 = 1_000_000_000;

/// Quotient of `a` by `b` rounded toward zero, as Rust's `/` computes it.
pub open spec fn div_trunc(a: int, b: int) -> int {
    if a >= 0 {
        a / b
    } else {
        -((-a) / b)
    }
}

/// The truncating quotient brackets `a` between consecutive multiples of `b`.
pub proof fn lemma_div_trunc_props(a: int, b: int)
    requires
        b >= 1,
    ensures
        a >= 0 ==> b * div_trunc(a, b) <= a < b * (div_trunc(a, b) + 1),
        a < 0 ==> b * (div_trunc(a, b) - 1) < a <= b * div_trunc(a, b),
        a >= 0 ==> div_trunc(a, b) >= 0,
        a < 0 ==> div_trunc(a, b) <= 0,
{
    let q = div_trunc(a, b);
    if a >= 0 {
        lemma_fundamental_div_mod(a, b);
        lemma_mod_bound(a, b);
        assert(b * q <= a && a < b * (q + 1) && q >= 0) by (nonlinear_arith)
            requires
                b >= 1,
                a >= 0,
                q == a / b,
                b * (a / b) + a % b == a,
                0 <= a % b < b;
    } else {
        lemma_fundamental_div_mod(-a, b);
        lemma_mod_bound(-a, b);
        assert(b * (q - 1) < a && a <= b * q && q <= 0) by (nonlinear_arith)
            requires
                b >= 1,
                a < 0,
                q == -((-a) / b),
                b * ((-a) / b) + (-a) % b == -a,
                0 <= (-a) % b < b;
    }
}

/// If `|a| <= b * m`, the truncating quotient of `a` by `b` is at most `m`
/// in magnitude.
pub proof fn lemma_div_trunc_le(a: int, b: int, m: int)
    requires
        b >= 1,
        m >= 0,
        -(b * m) <= a <= b * m,
    ensures
        -m <= div_trunc(a, b) <= m,
{
    lemma_div_trunc_props(a, b);
    let q = div_trunc(a, b);
    if a >= 0 {
        assert(q <= m) by (nonlinear_arith)
            requires b >= 1 && b * q <= a && a <= b * m;
    } else {
        assert(-m <= q) by (nonlinear_arith)
            requires b >= 1 && a <= b * q && -(b * m) <= a;
    }
}

/// Truncating division, the semantics of Rust's `/` on signed integers.
pub fn tdiv(a: i128, b: i128) -> (q: i128)
    requires
        1 <= b,
        a != i128::MIN,
    ensures
        q == div_trunc(a as int, b as int),
        a >= 0 ==> b * q <= a < b * (q + 1) && q >= 0,
        a < 0 ==> b * (q - 1) < a <= b * q && q <= 0,
{
    proof {
        lemma_div_trunc_props(a as int, b as int);
    }
    a / b
}

/// Euclidean quotient and remainder, the semantics of `/` and `%` in
/// specifications: the remainder is always in `[0, b)`.
pub fn ediv_emod(a: i128, b: i128) -> (qr: (i128, i128))
    requires
        1 <= b,
        a != i128::MIN,
    ensures
        qr.0 == a as int / b as int,
        qr.1 == a as int % b as int,
        0 <= qr.1 < b,
        b * qr.0 + qr.1 == a,
{
    let q0: i128 = tdiv(a, b);
    proof {
        if a >= 0 {
            assert(0 <= b * q0) by (nonlinear_arith)
                requires b >= 1 && q0 >= 0;
        } else {
            assert(b * q0 <= 0) by (nonlinear_arith)
                requires b >= 1 && q0 <= 0;
        }
    }
    let m0: i128 = a - b * q0;
    proof {
        assert(b * (q0 - 1) == b * q0 - b && b * (q0 + 1) == b * q0 + b) by (nonlinear_arith);
    }
    if m0 >= 0 {
        proof {
            assert(a as int == q0 * b + m0) by (nonlinear_arith)
                requires m0 == a - b * q0;
            lemma_fundamental_div_mod_converse(a as int, b as int, q0 as int, m0 as int);
        }
        (q0, m0)
    } else {
        proof {
            assert(a as int == (q0 - 1) * b + (m0 + b)) by (nonlinear_arith)
                requires m0 == a - b * q0;
            lemma_fundamental_div_mod_converse(a as int, b as int, q0 as int - 1, m0 as int + b);
            assert(b * (q0 - 1) + (m0 + b) == a) by (nonlinear_arith)
                requires m0 == a - b * q0;
        }
        (q0 - 1, m0 + b)
    }
}

/// Floor of the square root, defined by primitive recursion.
pub open spec fn sqrt_floor(n: nat) -> nat
    decreases n,
{
    if n == 0 {
        0
    } else {
        let r = sqrt_floor((n - 1) as nat);
        if (r + 1) * (r + 1) <= n {
            r + 1
        } else {
            r
        }
    }
}

/// `sqrt_floor(n)` is the unique `r` with `r^2 <= n < (r+1)^2`.
pub proof fn lemma_sqrt_floor_props(n: nat)
    ensures
        sqrt_floor(n) * sqrt_floor(n) <= n,
        n < (sqrt_floor(n) + 1) * (sqrt_floor(n) + 1),
    decreases n,
{
    let s = sqrt_floor(n);
    if n == 0 {
        assert(s * s <= n && n < (s + 1) * (s + 1)) by (nonlinear_arith)
            requires s == 0 && n == 0;
    } else {
        lemma_sqrt_floor_props((n - 1) as nat);
        let r = sqrt_floor((n - 1) as nat);
        if (r + 1) * (r + 1) <= n {
            assert(s == r + 1);
            assert(s * s <= n && n < (s + 1) * (s + 1)) by (nonlinear_arith)
                requires s == r + 1 && (r + 1) * (r + 1) <= n && n - 1 < (r + 1) * (r + 1) && r >= 0;
        } else {
            assert(s == r);
            assert(s * s <= n && n < (s + 1) * (s + 1)) by (nonlinear_arith)
                requires s == r && r * r <= n - 1 && n < (r + 1) * (r + 1);
        }
    }
}

pub proof fn lemma_sqrt_floor_unique(n: nat, r: nat)
    requires
        r * r <= n,
        n < (r + 1) * (r + 1),
    ensures
        r == sqrt_floor(n),
{
    lemma_sqrt_floor_props(n);
    let s = sqrt_floor(n);
    if r < s {
        assert((r + 1) * (r + 1) <= s * s) by (nonlinear_arith)
            requires r + 1 <= s && r >= 0;
    }
    if s < r {
        assert((s + 1) * (s + 1) <= r * r) by (nonlinear_arith)
            requires s + 1 <= r && s >= 0;
    }
}

/// Integer square root of a 128-bit value, by bisection.
pub fn isqrt(n: u128) -> (r: u64)
    ensures
        r == sqrt_floor(n as nat),
        r * r <= n,
        n < (r + 1) * (r + 1),
{
    let mut lo: u128 = 0;
    let mut hi: u128 = 0xffff_ffff_ffff_ffff;
    proof {
        assert((hi + 1) * (hi + 1) > n as int) by (nonlinear_arith)
            requires hi == 0xffff_ffff_ffff_ffffu128 && n <= u128::MAX;
    }
    while lo < hi
        invariant
            0 <= lo <= hi <= 0xffff_ffff_ffff_ffff,
            lo * lo <= n,
            (n as int) < (hi + 1) * (hi + 1),
        decreases hi - lo,
    {
        let mid: u128 = lo + (hi - lo + 1) / 2;
        proof {
            assert(mid * mid <= u128::MAX) by (nonlinear_arith)
                requires 0 <= mid <= 0xffff_ffff_ffff_ffffu128;
        }
        if mid * mid <= n {
            lo = mid;
        } else {
            hi = mid - 1;
        }
    }
    proof {
        lemma_sqrt_floor_unique(n as nat, lo as nat);
    }
    lo as u64
}

/// Floor of the cube root, defined by primitive recursion.
pub open spec fn cbrt_floor(n: nat) -> nat
    decreases n,
{
    if n == 0 {
        0
    } else {
        let r = cbrt_floor((n - 1) as nat);
        if (r + 1) * (r + 1) * (r + 1) <= n {
            r + 1
        } else {
            r
        }
    }
}

/// `cbrt_floor(n)` is the unique `r` with `r^3 <= n < (r+1)^3`.
pub proof fn lemma_cbrt_floor_props(n: nat)
    ensures
        cbrt_floor(n) * cbrt_floor(n) * cbrt_floor(n) <= n,
        n < (cbrt_floor(n) + 1) * (cbrt_floor(n) + 1) * (cbrt_floor(n) + 1),
    decreases n,
{
    let s = cbrt_floor(n);
    if n == 0 {
        assert(s * s * s <= n && n < (s + 1) * (s + 1) * (s + 1)) by (nonlinear_arith)
            requires s == 0 && n == 0;
    } else {
        lemma_cbrt_floor_props((n - 1) as nat);
        let r = cbrt_floor((n - 1) as nat);
        if (r + 1) * (r + 1) * (r + 1) <= n {
            assert(s == r + 1);
            assert(s * s * s <= n && n < (s + 1) * (s + 1) * (s + 1)) by (nonlinear_arith)
                requires
                    s == r + 1 && (r + 1) * (r + 1) * (r + 1) <= n && n - 1 < (r + 1) * (r + 1)
                        * (r + 1) && r >= 0;
        } else {
            assert(s == r);
            assert(s * s * s <= n && n < (s + 1) * (s + 1) * (s + 1)) by (nonlinear_arith)
                requires s == r && r * r * r <= n - 1 && n < (r + 1) * (r + 1) * (r + 1);
        }
    }
}

pub proof fn lemma_cbrt_floor_unique(n: nat, r: nat)
    requires
        r * r * r <= n,
        n < (r + 1) * (r + 1) * (r + 1),
    ensures
        r == cbrt_floor(n),
{
    lemma_cbrt_floor_props(n);
    let s = cbrt_floor(n);
    if r < s {
        assert((r + 1) * (r + 1) * (r + 1) <= s * s * s) by (nonlinear_arith)
            requires r + 1 <= s && r >= 0;
    }
    if s < r {
        assert((s + 1) * (s + 1) * (s + 1) <= r * r * r) by (nonlinear_arith)
            requires s + 1 <= r && s >= 0;
    }
}

/// Integer cube root, by bisection; the input must leave room for the
/// cube of the search bound.
pub fn icbrt(n: u128) -> (r: u64)
    requires
        n < 10_000_000_000_000_000_000_000_000_000_000_000_000,
    ensures
        r == cbrt_floor(n as nat),
        r * r * r <= n,
        n < (r + 1) * (r + 1) * (r + 1),
{
    let mut lo: u128 = 0;
    let mut hi: u128 = 0x200_0000_0000;
    proof {
        assert((hi + 1) * (hi + 1) * (hi + 1) > n as int) by (nonlinear_arith)
            requires hi == 0x200_0000_0000u128 && n < 10_000_000_000_000_000_000_000_000_000_000_000_000;
    }
    while lo < hi
        invariant
            0 <= lo <= hi <= 0x200_0000_0000,
            lo * lo * lo <= n,
            (n as int) < (hi + 1) * (hi + 1) * (hi + 1),
        decreases hi - lo,
    {
        let mid: u128 = lo + (hi - lo + 1) / 2;
        proof {
            assert(mid * mid <= 0x4_0000_0000_0000_0000_0000 && mid * mid * mid <= u128::MAX)
                by (nonlinear_arith)
                requires 0 <= mid <= 0x200_0000_0000u128;
        }
        if mid * mid * mid <= n {
            lo = mid;
        } else {
            hi = mid - 1;
        }
    }
    proof {
        lemma_cbrt_floor_unique(n as nat, lo as nat);
    }
    lo as u64
}

} // verus!
