//! Integer helpers: square roots of ratios (for the algorithms' step sizes),
//! greatest common divisors, and overflow-checked distance arithmetic.
use vstd::arithmetic::div_mod::*;
use vstd::arithmetic::mul::*;
use vstd::prelude::*;

use crate::group::abs_int;

verus! {

/// `r` is the integer square root of `v`: `r^2 <= v < (r + 1)^2`.
pub open spec fn is_isqrt(r: int, v: int) -> bool {
    0 <= r && r * r <= v < (r + 1) * (r + 1)
}

/// `floor(sqrt(v))` by bisection.
pub fn isqrt(v: u128) -> (r: u64)
    ensures
        is_isqrt(r as int, v as int),
{
    let mut lo: u128 = 0;
    let mut hi: u128 = 0x1_0000_0000_0000_0000;
    assert(hi * hi > v) by (nonlinear_arith)
        requires
            hi == 0x1_0000_0000_0000_0000int,
            v < 0x1_0000_0000_0000_0000_0000_0000_0000_0000int,
    ;
    while lo + 1 < hi
        invariant
            lo < hi <= 0x1_0000_0000_0000_0000,
            lo * lo <= v,
            v < hi * hi,
        decreases hi - lo,
    {
        let mid = lo + (hi - lo) / 2;
        assert(mid * mid < 0x1_0000_0000_0000_0000 * 0x1_0000_0000_0000_0000) by (nonlinear_arith)
            requires
                mid < 0x1_0000_0000_0000_0000int,
                mid >= 0,
        ;
        if mid * mid <= v {
            lo = mid;
        } else {
            hi = mid;
        }
    }
    assert(hi == lo + 1);
    lo as u64
}

/// `floor(sqrt(a / b))` for `b > 0`: the integer square root of `a / b`
/// (integer division), which is the same number.
pub fn floor_sqrt_ratio(a: u128, b: u128) -> (r: u64)
    requires
        b > 0,
    ensures
        r * r * b <= a < (r + 1) * (r + 1) * b,
{
    let q = a / b;
    let r = isqrt(q);
    proof {
        lemma_fundamental_div_mod(a as int, b as int);
        lemma_mod_bound(a as int, b as int);
        let rr = r as int * r as int;
        let ss = (r as int + 1) * (r as int + 1);
        lemma_mul_inequality(rr, q as int, b as int);
        assert(q * b + b <= ss * b) by {
            lemma_mul_inequality(q as int + 1, ss, b as int);
            lemma_mul_is_distributive_add_other_way(b as int, q as int, 1);
        }
        lemma_mul_is_commutative(q as int, b as int);
    }
    r
}

/// `ceil(sqrt(a / b))`: the least `r` with `a <= r^2 * b`.
pub fn ceil_sqrt_ratio(a: u128, b: u128) -> (r: u64)
    requires
        b > 0,
        a < 0x400_0000_0000_0000_0000_0000_0000_0000,
    ensures
        r * r * b >= a,
        r > 0 ==> (r - 1) * (r - 1) * b < a,
{
    let f = floor_sqrt_ratio(a, b);
    assert(f * f * b <= a);
    assert(f < 0x2000_0000_0000_0000) by (nonlinear_arith)
        requires
            f * f * b <= a,
            b > 0,
            a < 0x400_0000_0000_0000_0000_0000_0000_0000int,
    ;
    assert(f * f <= f * f * b) by (nonlinear_arith)
        requires
            b > 0,
    ;
    if f as u128 * f as u128 * b == a {
        assert(f > 0 ==> (f - 1) * (f - 1) * b < f * f * b) by (nonlinear_arith)
            requires
                b > 0,
        ;
        f
    } else {
        f + 1
    }
}

/// `round(sqrt(a / b))`, halves rounding up: the `r` with
/// `(r - 1/2)^2 <= a / b < (r + 1/2)^2`.
pub fn round_sqrt_ratio(a: u128, b: u128) -> (r: u64)
    requires
        b > 0,
        a < 0x4000_0000_0000_0000_0000_0000_0000_0000,
    ensures
        r > 0 ==> (2 * r - 1) * (2 * r - 1) * b <= 4 * a,
        4 * a < (2 * r + 1) * (2 * r + 1) * b,
{
    let u = floor_sqrt_ratio(4 * a, b);
    let r = u / 2 + u % 2;
    assert(r == (u + 1) / 2);
    assert(r > 0 ==> (2 * r - 1) * (2 * r - 1) * b <= 4 * a) by (nonlinear_arith)
        requires
            u * u * b <= 4 * a,
            r == (u + 1) / 2,
            b > 0,
            u >= 0,
    ;
    assert(4 * a < (2 * r + 1) * (2 * r + 1) * b) by (nonlinear_arith)
        requires
            4 * a < (u + 1) * (u + 1) * b,
            r == (u + 1) / 2,
            b > 0,
            u >= 0,
    ;
    r
}

/// `r` is `sqrt(v)` rounded to the nearest integer, halves up:
/// `(r - 1/2)^2 <= v < (r + 1/2)^2`.
pub open spec fn is_round_sqrt(r: int, v: int) -> bool {
    &&& r >= 0
    &&& r > 0 ==> (2 * r - 1) * (2 * r - 1) <= 4 * v
    &&& 4 * v < (2 * r + 1) * (2 * r + 1)
}

/// `round(sqrt(v))`.
pub open spec fn round_sqrt(v: int) -> int {
    choose|r: int| is_round_sqrt(r, v)
}

/// The rounded square root is unique.
pub proof fn lemma_round_sqrt_unique(r: int, v: int)
    requires
        is_round_sqrt(r, v),
    ensures
        r == round_sqrt(v),
{
    let s = round_sqrt(v);
    assert(is_round_sqrt(s, v));
    if s < r {
        assert((2 * s + 1) * (2 * s + 1) <= (2 * r - 1) * (2 * r - 1)) by (nonlinear_arith)
            requires
                0 <= s < r,
        ;
    } else if r < s {
        assert((2 * r + 1) * (2 * r + 1) <= (2 * s - 1) * (2 * s - 1)) by (nonlinear_arith)
            requires
                0 <= r < s,
        ;
    }
}

/// `v^2 * b <= a < c^2` with `b >= 1` bounds `v` below `c`.
pub proof fn lemma_root_bound(v: int, b: int, a: int, c: int)
    requires
        v >= 0,
        b >= 1,
        c >= 0,
        v * v * b <= a,
        a < c * c,
    ensures
        v < c,
{
    if v >= c {
        lemma_mul_inequality(c, v, c);
        lemma_mul_inequality(c, v, v);
        lemma_mul_is_commutative(c, v);
        lemma_mul_inequality(1, b, v * v);
        lemma_mul_is_commutative(v * v, b);
    }
}

/// The greatest common divisor by Euclid's algorithm, `gcd(a, 0) = a`.
pub open spec fn spec_gcd(a: nat, b: nat) -> nat
    decreases b,
{
    if b == 0 {
        a
    } else {
        spec_gcd(b, a % b)
    }
}

/// `gcd(1, b) == 1`.
pub proof fn lemma_gcd_one(b: nat)
    ensures
        spec_gcd(1, b) == 1,
{
    reveal_with_fuel(spec_gcd, 3);
    if b > 1 {
        vstd::arithmetic::div_mod::lemma_small_mod(1, b);
        assert(b % 1nat == 0) by (nonlinear_arith);
    }
}

/// `gcd` folded over a sequence from its first element; `0` for the empty one.
pub open spec fn seq_gcd(s: Seq<i64>) -> nat
    decreases s.len(),
{
    if s.len() == 0 {
        0
    } else if s.len() == 1 {
        abs_int(s[0] as int) as nat
    } else {
        spec_gcd(seq_gcd(s.drop_last()), abs_int(s.last() as int) as nat)
    }
}

/// `num_integer::gcd` on `i64`: the nonnegative greatest common divisor of
/// `|a|` and `|b|` (Stein's algorithm in the crate); it overflows on
/// `i64::MIN`, which is excluded.
#[verifier::external_body]
pub(crate) fn gcd_i64(a: i64, b: i64) -> (r: i64)
    requires
        a > i64::MIN,
        b > i64::MIN,
    ensures
        r == spec_gcd(abs_int(a as int) as nat, abs_int(b as int) as nat),
{
    num_integer::gcd(a, b)
}

} // verus!
