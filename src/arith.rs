//! Integer helpers: division toward zero, interpolation and integer square root.

use vstd::prelude::*;

verus! {

/// Division rounding toward zero, as Rust's integer `/` does.
pub open spec fn trunc_div(a: int, b: int) -> int {
    if a >= 0 {
        a / b
    } else {
        -((-a) / b)
    }
}

/// The point `num / den` of the way from `a` to `b`, rounded toward `a`.
pub open spec fn lerp(a: int, b: int, num: int, den: int) -> int {
    a + trunc_div(num * (b - a), den)
}

pub open spec fn min_int(a: int, b: int) -> int {
    if a <= b {
        a
    } else {
        b
    }
}

pub open spec fn max_int(a: int, b: int) -> int {
    if a >= b {
        a
    } else {
        b
    }
}

/// An interpolated value never leaves the interval between its ends.
pub proof fn lemma_lerp_between(a: int, b: int, num: int, den: int)
    requires
        0 <= num <= den,
        den > 0,
    ensures
        min_int(a, b) <= lerp(a, b, num, den) <= max_int(a, b),
        num == 0 ==> lerp(a, b, num, den) == a,
        num == den ==> lerp(a, b, num, den) == b,
{
    let d = b - a;
    if d >= 0 {
        assert(0 <= num * d <= den * d) by (nonlinear_arith)
            requires
                0 <= num <= den,
                d >= 0,
        ;
        assert(0 <= (num * d) / den <= d) by (nonlinear_arith)
            requires
                0 <= num * d <= den * d,
                den > 0,
        ;
    } else {
        let e = -d;
        assert(num * d == -(num * e)) by (nonlinear_arith)
            requires
                e == -d,
        ;
        assert(0 <= num * e <= den * e) by (nonlinear_arith)
            requires
                0 <= num <= den,
                e > 0,
        ;
        assert(0 <= (num * e) / den <= e) by (nonlinear_arith)
            requires
                0 <= num * e <= den * e,
                den > 0,
        ;
    }
    if num == 0 {
        assert(num * d == 0);
    }
    if num == den {
        assert(num * d == den * d);
        if d >= 0 {
            assert((den * d) / den == d) by (nonlinear_arith)
                requires
                    den > 0,
            ;
        } else {
            assert((den * (-d)) / den == -d) by (nonlinear_arith)
                requires
                    den > 0,
            ;
            assert(num * d == -(den * (-d))) by (nonlinear_arith)
                requires
                    num == den,
            ;
        }
    }
}

/// Integer division rounding toward zero.
pub fn div_toward_zero(a: i128, b: i128) -> (r: i128)
    requires
        b > 0,
        a > i128::MIN,
    ensures
        r == trunc_div(a as int, b as int),
{
    if a >= 0 {
        a / b
    } else {
        let n: i128 = -a;
        let q: i128 = n / b;
        -q
    }
}

/// Floor of the square root.
pub fn isqrt(n: u128) -> (r: u64)
    ensures
        (r as int) * (r as int) <= n,
        n < (r as int + 1) * (r as int + 1),
{
    let mut lo: u128 = 0;
    let mut hi: u128 = 18446744073709551616;
    assert(n < (hi as int) * (hi as int)) by (nonlinear_arith)
        requires
            hi == 18446744073709551616u128,
            n <= u128::MAX,
    ;
    while hi - lo > 1
        invariant
            lo < hi <= 18446744073709551616u128,
            (lo as int) * (lo as int) <= n,
            n < (hi as int) * (hi as int),
        decreases hi - lo,
    {
        let mid: u128 = lo + (hi - lo) / 2;
        assert((mid as int) * (mid as int) <= u128::MAX) by (nonlinear_arith)
            requires
                mid < 18446744073709551616u128,
        ;
        if mid * mid <= n {
            lo = mid;
        } else {
            hi = mid;
        }
    }
    assert(hi == lo + 1);
    lo as u64
}

} // verus!
