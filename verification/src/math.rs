use vstd::prelude::*;

verus! {

use vstd::arithmetic::mul::lemma_mul_upper_bound;
use vstd::math::abs;

/// Truncating integer division, the form hardware and Rust's `/` use: the
/// quotient of the magnitudes, negated when the signs differ. It agrees with
/// flooring division on nonnegative operands.
pub open spec fn tdiv(a: int, b: int) -> int {
    if (a < 0) == (b < 0) {
        abs(a) as int / abs(b) as int
    } else {
        -(abs(a) as int / abs(b) as int)
    }
}

/// Truncating division on `i128`, away from the extreme value where negation
/// would overflow.
pub fn tdiv_i128(a: i128, d: i128) -> (q: i128)
    requires
        d != 0,
        a > i128::MIN,
        d > i128::MIN,
    ensures
        q == tdiv(a as int, d as int),
{
    let neg_a = a < 0;
    let neg_d = d < 0;
    let abs_a = if neg_a {
        -a
    } else {
        a
    };
    let abs_d = if neg_d {
        -d
    } else {
        d
    };
    let q0 = abs_a / abs_d;
    if neg_a != neg_d {
        -q0
    } else {
        q0
    }
}

/// The product of an `i32` weight and a channel value is bounded in magnitude
/// by `255 * 2^31`.
pub proof fn lemma_weight_term_bound(wv: int, c: int)
    requires
        -0x8000_0000 <= wv <= 0x7fff_ffff,
        0 <= c <= 255,
    ensures
        -0x7f_8000_0000 <= wv * c <= 0x7f_8000_0000,
{
    assert(-0x7f_8000_0000 <= wv * c <= 0x7f_8000_0000) by (nonlinear_arith)
        requires
            -0x8000_0000 <= wv <= 0x7fff_ffff,
            0 <= c <= 255,
    ;
}

/// `y*w + x` addresses a cell of a `w`-by-`h` grid stored row-major.
pub proof fn lemma_row_major_index(x: int, y: int, w: int, h: int)
    requires
        0 <= x < w,
        0 <= y < h,
    ensures
        0 <= y * w + x < w * h,
{
    assert(0 <= y * w + x < w * h) by (nonlinear_arith)
        requires
            0 <= x < w,
            0 <= y < h,
    ;
}

/// Distinct cells of a `w`-column grid have distinct row-major addresses.
pub proof fn lemma_row_major_distinct(x1: int, y1: int, x2: int, y2: int, w: int)
    requires
        0 <= x1 < w,
        0 <= x2 < w,
        0 <= y1,
        0 <= y2,
        x1 != x2 || y1 != y2,
    ensures
        y1 * w + x1 != y2 * w + x2,
{
    assert(y1 * w + x1 != y2 * w + x2) by (nonlinear_arith)
        requires
            0 <= x1 < w,
            0 <= x2 < w,
            0 <= y1,
            0 <= y2,
            x1 != x2 || y1 != y2,
    ;
}

/// The product of two values is at most the product of their upper bounds.
pub proof fn lemma_mul_bound(a: int, ab: int, b: int, bb: int)
    requires
        0 <= a <= ab,
        0 <= b <= bb,
    ensures
        a * b <= ab * bb,
{
    lemma_mul_upper_bound(a, ab, b, bb);
}

/// `r` is the integer square root of `n`: the largest integer whose square
/// does not exceed `n`.
pub open spec fn is_isqrt(n: int, r: int) -> bool {
    0 <= r && r * r <= n && n < (r + 1) * (r + 1)
}

/// The integer square root of `n`, rounded down, as a spec-level value.
pub open spec fn isqrt_val(n: int) -> int
    decreases n,
{
    if n <= 0 {
        0
    } else {
        let p = isqrt_val(n - 1);
        if (p + 1) * (p + 1) <= n {
            p + 1
        } else {
            p
        }
    }
}

/// `isqrt_val(n)` really is the integer square root of `n`.
pub proof fn lemma_isqrt_val_correct(n: int)
    requires
        0 <= n,
    ensures
        is_isqrt(n, isqrt_val(n)),
    decreases n,
{
    if n == 0 {
        assert(isqrt_val(0) == 0);
    } else {
        lemma_isqrt_val_correct(n - 1);
        let p = isqrt_val(n - 1);
        if (p + 1) * (p + 1) <= n {
            assert(n == (p + 1) * (p + 1));
            assert((p + 1) * (p + 1) < (p + 2) * (p + 2)) by (nonlinear_arith)
                requires
                    0 <= p,
            ;
        } else {
            assert(p * p <= n - 1 < n);
        }
    }
}

/// A value satisfying `is_isqrt` is unique.
pub proof fn lemma_isqrt_unique(n: int, r1: int, r2: int)
    requires
        is_isqrt(n, r1),
        is_isqrt(n, r2),
    ensures
        r1 == r2,
{
    assert(r1 == r2) by (nonlinear_arith)
        requires
            0 <= r1 && r1 * r1 <= n && n < (r1 + 1) * (r1 + 1),
            0 <= r2 && r2 * r2 <= n && n < (r2 + 1) * (r2 + 1),
    ;
}

/// Integer square root, rounded down.
pub fn isqrt(n: u32) -> (r: u32)
    ensures
        r == isqrt_val(n as int),
        is_isqrt(n as int, r as int),
{
    let n64: u64 = n as u64;
    let mut r: u64 = 0;
    loop
        invariant
            n64 == n,
            r * r <= n64,
            r <= 65535,
        ensures
            r * r <= n64,
            n64 < (r + 1) * (r + 1),
            r <= 65535,
        decreases 65536 - r,
    {
        proof {
            lemma_mul_upper_bound(r + 1, 65536, r + 1, 65536);
        }
        let next = r + 1;
        if next * next > n64 {
            break;
        }
        assert(next <= 65535) by (nonlinear_arith)
            requires
                next * next <= n64,
                n64 < 0x1_0000_0000,
                1 <= next,
        ;
        r = next;
    }
    proof {
        lemma_mul_upper_bound(r as int, 65535, r as int, 65535);
        lemma_isqrt_val_correct(n as int);
        lemma_isqrt_unique(n as int, r as int, isqrt_val(n as int));
    }
    r as u32
}

/// Dividing a channel value by `255 / m + 1` yields an index below `m`.
pub proof fn lemma_scaled_index_bound(v: int, m: int)
    requires
        0 <= v <= 255,
        1 <= m,
    ensures
        0 <= v / (255int / m + 1) < m,
{
    let q: int = 255int / m;
    vstd::arithmetic::div_mod::lemma_fundamental_div_mod(255, m);
    vstd::arithmetic::div_mod::lemma_mod_division_less_than_divisor(255, m);
    assert(m * (q + 1) == m * q + m) by (nonlinear_arith);
    assert(v < (q + 1) * m) by (nonlinear_arith)
        requires
            v <= 255,
            m * (q + 1) == m * q + m,
            255int == m * q + 255int % m,
            255int % m < m,
    ;
    vstd::arithmetic::div_mod::lemma_multiply_divide_lt(v, q + 1, m);
    vstd::arithmetic::div_mod::lemma_div_pos_is_pos(v, q + 1);
}

/// The square of a value bounded in magnitude by `b` is at most `b * b`.
pub proof fn lemma_square_bound(d: int, b: int)
    requires
        -b <= d <= b,
        0 <= b,
    ensures
        0 <= d * d <= b * b,
{
    assert(0 <= d * d <= b * b) by (nonlinear_arith)
        requires
            -b <= d <= b,
            0 <= b,
    ;
}

} // verus!
