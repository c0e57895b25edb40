//! Fixed-point reals. A real `v` is held as the integer `raw` with
//! `v = raw / SCALE`. Every operation saturates at `±LIMIT`, so each one is
//! total and its result always lies in `[-LIMIT, LIMIT]`.

use vstd::arithmetic::div_mod::{lemma_div_is_ordered, lemma_div_nonincreasing, lemma_div_pos_is_pos};
use vstd::prelude::*;

verus! {

/// Raw units in one whole unit.
pub const SCALE: i64 = 65536;

/// Largest magnitude of a raw value produced by an operation.
pub const LIMIT: i64 = 1099511627776;

/// Saturation to `[-LIMIT, LIMIT]`.
pub open spec fn clamp(v: int) -> int {
    if v > LIMIT {
        LIMIT as int
    } else if v < -LIMIT {
        -LIMIT
    } else {
        v
    }
}

/// Division rounding toward zero, for a positive divisor.
pub open spec fn div_trunc(a: int, b: int) -> int {
    if a >= 0 {
        a / b
    } else {
        -((-a) / b)
    }
}

pub open spec fn in_range(v: int) -> bool {
    -LIMIT <= v <= LIMIT
}

pub open spec fn fadd(a: int, b: int) -> int {
    clamp(a + b)
}

pub open spec fn fsub(a: int, b: int) -> int {
    clamp(a - b)
}

pub open spec fn fneg(a: int) -> int {
    clamp(-a)
}

#[verifier::opaque]
pub open spec fn fmul(a: int, b: int) -> int {
    clamp(div_trunc(a * b, SCALE as int))
}

/// Quotient of two reals; a zero divisor saturates toward the sign of `a`.
#[verifier::opaque]
pub open spec fn fdiv(a: int, b: int) -> int {
    if b > 0 {
        clamp(div_trunc(a * SCALE, b))
    } else if b < 0 {
        clamp(-div_trunc(a * SCALE, -b))
    } else if a > 0 {
        LIMIT as int
    } else if a < 0 {
        -LIMIT
    } else {
        0
    }
}

/// `r` is the integer square root of `n`.
pub open spec fn is_isqrt(n: int, r: int) -> bool {
    0 <= r && r * r <= n && n < (r + 1) * (r + 1)
}

pub open spec fn isqrt(n: int) -> nat {
    choose|r: nat| is_isqrt(n, r as int)
}

/// Square root of a real, rounded down; zero for a non-positive argument.
#[verifier::opaque]
pub open spec fn fsqrt(a: int) -> int {
    if a <= 0 {
        0
    } else {
        clamp(isqrt(a * SCALE) as int)
    }
}

/// Negating one factor negates a product: the operations are symmetric
/// about zero.
pub proof fn lemma_fmul_neg(a: int, b: int)
    requires
        in_range(b),
    ensures
        fmul(a, fneg(b)) == -fmul(a, b),
{
    reveal(fmul);
    assert(a * (-b) == -(a * b)) by (nonlinear_arith);
    let x = a * b;
    assert(div_trunc(-x, SCALE as int) == -div_trunc(x, SCALE as int));
}

/// Euclidean norm of a vector of reals, rounded down, each component first
/// held in range.
#[verifier::opaque]
pub open spec fn fnorm(x: int, y: int, z: int) -> int {
    let (a, b, c) = (clamp(x), clamp(y), clamp(z));
    clamp(isqrt(a * a + b * b + c * c) as int)
}

pub proof fn lemma_fnorm_in_range(x: int, y: int, z: int)
    ensures
        in_range(fnorm(x, y, z)),
        fnorm(x, y, z) >= 0,
{
    reveal(fnorm);
}

pub proof fn lemma_fmul_in_range(a: int, b: int)
    ensures
        in_range(fmul(a, b)),
{
    reveal(fmul);
}

pub proof fn lemma_fdiv_in_range(a: int, b: int)
    ensures
        in_range(fdiv(a, b)),
{
    reveal(fdiv);
}

pub proof fn lemma_fsqrt_in_range(a: int)
    ensures
        in_range(fsqrt(a)),
        fsqrt(a) >= 0,
{
    reveal(fsqrt);
}

proof fn lemma_div_trunc_monotone(x: int, y: int, b: int)
    requires
        x <= y,
        b > 0,
    ensures
        div_trunc(x, b) <= div_trunc(y, b),
{
    if x >= 0 {
        lemma_div_is_ordered(x, y, b);
    } else if y < 0 {
        lemma_div_is_ordered(-y, -x, b);
    } else {
        lemma_div_pos_is_pos(-x, b);
        lemma_div_pos_is_pos(y, b);
    }
}

/// Division by a non-negative real keeps the order of the dividends.
pub proof fn lemma_fdiv_monotone(x: int, y: int, b: int)
    requires
        x <= y,
        b >= 0,
    ensures
        fdiv(x, b) <= fdiv(y, b),
{
    reveal(fdiv);
    if b > 0 {
        assert(x * SCALE <= y * SCALE);
        lemma_div_trunc_monotone(x * SCALE, y * SCALE, b);
    }
}

/// The square of a real is not negative.
pub proof fn lemma_fmul_square(a: int)
    ensures
        fmul(a, a) >= 0,
{
    reveal(fmul);
    assert(a * a >= 0) by (nonlinear_arith);
    lemma_div_pos_is_pos(a * a, SCALE as int);
}

pub proof fn lemma_fmul_comm(a: int, b: int)
    ensures
        fmul(a, b) == fmul(b, a),
{
    reveal(fmul);
    assert(a * b == b * a) by (nonlinear_arith);
}

pub proof fn lemma_fadd_neg(a: int, b: int)
    ensures
        fadd(-a, -b) == -fadd(a, b),
{
}

pub proof fn lemma_isqrt_unique(n: int, r: int)
    requires
        is_isqrt(n, r),
    ensures
        isqrt(n) == r,
{
    assert(is_isqrt(n, r as nat as int));
    let s = isqrt(n) as int;
    assert(is_isqrt(n, s));
    if s < r {
        assert((s + 1) * (s + 1) <= r * r) by (nonlinear_arith)
            requires
                0 <= s,
                s + 1 <= r,
        ;
    } else if r < s {
        assert((r + 1) * (r + 1) <= s * s) by (nonlinear_arith)
            requires
                0 <= r,
                r + 1 <= s,
        ;
    }
}

/// Bound on the magnitude of wide intermediate values.
const WIDE: i128 = 0x4000_0000_0000_0000_0000_0000_0000_0000;

fn clamp_wide(v: i128) -> (r: i64)
    ensures
        r == clamp(v as int),
{
    if v > LIMIT as i128 {
        LIMIT
    } else if v < -(LIMIT as i128) {
        -LIMIT
    } else {
        v as i64
    }
}

fn div_trunc_wide(a: i128, b: i128) -> (r: i128)
    requires
        b > 0,
        -WIDE <= a <= WIDE,
    ensures
        r == div_trunc(a as int, b as int),
        -WIDE <= r <= WIDE,
{
    if a >= 0 {
        proof {
            lemma_div_nonincreasing(a as int, b as int);
        }
        a / b
    } else {
        proof {
            lemma_div_nonincreasing(-a as int, b as int);
        }
        -((-a) / b)
    }
}

pub fn fx_add(a: i64, b: i64) -> (r: i64)
    ensures
        r == fadd(a as int, b as int),
        in_range(r as int),
{
    clamp_wide(a as i128 + b as i128)
}

pub fn fx_sub(a: i64, b: i64) -> (r: i64)
    ensures
        r == fsub(a as int, b as int),
        in_range(r as int),
{
    clamp_wide(a as i128 - b as i128)
}

pub fn fx_neg(a: i64) -> (r: i64)
    ensures
        r == fneg(a as int),
        in_range(r as int),
{
    clamp_wide(-(a as i128))
}

proof fn lemma_wide_product(a: int, b: int)
    requires
        -0x8000_0000_0000_0000 <= a <= 0x7fff_ffff_ffff_ffff,
        -0x8000_0000_0000_0000 <= b <= 0x7fff_ffff_ffff_ffff,
    ensures
        -WIDE <= a * b <= WIDE,
{
    assert(-0x4000_0000_0000_0000_0000_0000_0000_0000 <= a * b <= 0x4000_0000_0000_0000_0000_0000_0000_0000)
        by (nonlinear_arith)
        requires
            -0x8000_0000_0000_0000 <= a <= 0x7fff_ffff_ffff_ffff,
            -0x8000_0000_0000_0000 <= b <= 0x7fff_ffff_ffff_ffff,
    ;
}

pub fn fx_mul(a: i64, b: i64) -> (r: i64)
    ensures
        r == fmul(a as int, b as int),
        in_range(r as int),
{
    reveal(fmul);
    proof {
        lemma_wide_product(a as int, b as int);
    }
    let p: i128 = (a as i128) * (b as i128);
    clamp_wide(div_trunc_wide(p, SCALE as i128))
}

pub fn fx_div(a: i64, b: i64) -> (r: i64)
    ensures
        r == fdiv(a as int, b as int),
        in_range(r as int),
{
    reveal(fdiv);
    let n: i128 = (a as i128) * 65536i128;
    if b > 0 {
        clamp_wide(div_trunc_wide(n, b as i128))
    } else if b < 0 {
        let q = div_trunc_wide(n, -(b as i128));
        clamp_wide(-q)
    } else if a > 0 {
        LIMIT
    } else if a < 0 {
        -LIMIT
    } else {
        0
    }
}

/// Integer square root by bisection.
fn isqrt_wide(n: u128) -> (r: u128)
    requires
        n < 0x10_0000_0000_0000_0000_0000,
    ensures
        is_isqrt(n as int, r as int),
        r < 0x400_0000_0000,
{
    let mut lo: u128 = 0;
    let mut hi: u128 = 0x400_0000_0000;
    assert(hi * hi == 0x10_0000_0000_0000_0000_0000);
    while hi - lo > 1
        invariant
            lo < hi <= 0x400_0000_0000,
            lo * lo <= n,
            n < hi * hi,
        decreases hi - lo,
    {
        let mid: u128 = lo + (hi - lo) / 2;
        assert(mid * mid <= 0x10_0000_0000_0000_0000_0000) by (nonlinear_arith)
            requires
                mid <= 0x400_0000_0000,
        ;
        if mid * mid <= n {
            lo = mid;
        } else {
            hi = mid;
        }
    }
    lo
}

pub fn fx_sqrt(a: i64) -> (r: i64)
    ensures
        r == fsqrt(a as int),
        0 <= r <= LIMIT,
{
    reveal(fsqrt);
    if a <= 0 {
        0
    } else {
        let n: u128 = (a as u128) * 65536u128;
        let s = isqrt_wide(n);
        proof {
            lemma_isqrt_unique(n as int, s as int);
        }
        clamp_wide(s as i128)
    }
}

pub fn fx_norm(x: i64, y: i64, z: i64) -> (r: i64)
    ensures
        r == fnorm(x as int, y as int, z as int),
        0 <= r <= LIMIT,
{
    reveal(fnorm);
    let (wa, wb, wc) = (clamp_wide(x as i128) as i128, clamp_wide(y as i128) as i128, clamp_wide(z as i128) as i128);
    assert(0 <= wa * wa <= 0x1_0000_0000_0000_0000_0000) by (nonlinear_arith)
        requires
            -0x100_0000_0000 <= wa <= 0x100_0000_0000,
    ;
    assert(0 <= wb * wb <= 0x1_0000_0000_0000_0000_0000) by (nonlinear_arith)
        requires
            -0x100_0000_0000 <= wb <= 0x100_0000_0000,
    ;
    assert(0 <= wc * wc <= 0x1_0000_0000_0000_0000_0000) by (nonlinear_arith)
        requires
            -0x100_0000_0000 <= wc <= 0x100_0000_0000,
    ;
    let n: u128 = (wa * wa + wb * wb + wc * wc) as u128;
    let s = isqrt_wide(n);
    proof {
        lemma_isqrt_unique(n as int, s as int);
    }
    clamp_wide(s as i128)
}

} // verus!
