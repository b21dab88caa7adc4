//! Arithmetic modulo a prime of the special form `2^63 - c` with a small `c`.
//!
//! Every field and scalar type of this crate is such a field; the functions
//! here are the shared, proved core of their `add`, `sub`, `mul` and `pow`.
use vstd::arithmetic::div_mod::*;
use vstd::arithmetic::mul::*;
use vstd::arithmetic::power::*;
use vstd::prelude::*;

verus! {

/// `2^63`.
pub open spec fn two63() -> int {
    0x8000_0000_0000_0000int
}

/// The modulus `2^63 - c`.
pub open spec fn modulus(c: u64) -> int {
    two63() - c
}

/// The constants `c` for which the reduction below is proved.
pub open spec fn small_c(c: u64) -> bool {
    1 <= c < 0x8000_0000
}

/// `x^e mod p`.
pub open spec fn pow_mod(x: int, e: nat, p: int) -> int {
    pow(x, e) % p
}

/// Reduces any `u64` modulo `2^63 - c` by at most two subtractions.
pub fn reduce_u64(v: u64, c: u64) -> (r: u64)
    requires
        small_c(c),
    ensures
        r == v as int % modulus(c),
        r < modulus(c),
{
    let p: u64 = 0x8000_0000_0000_0000u64 - c;
    let mut x = v;
    if x >= p {
        x = x - p;
    }
    if x >= p {
        x = x - p;
    }
    proof {
        let pi = modulus(c);
        if v as int >= 2 * pi {
            lemma_mod_sub_multiples_vanish(v as int - pi, pi);
            lemma_mod_sub_multiples_vanish(v as int, pi);
            lemma_small_mod(x as nat, pi as nat);
        } else if v as int >= pi {
            lemma_mod_sub_multiples_vanish(v as int, pi);
            lemma_small_mod(x as nat, pi as nat);
        } else {
            lemma_small_mod(v as nat, pi as nat);
        }
    }
    x
}

/// `(a + b) mod p` for reduced operands.
pub fn add_mod(a: u64, b: u64, c: u64) -> (r: u64)
    requires
        small_c(c),
        a < modulus(c),
        b < modulus(c),
    ensures
        r == (a + b) % modulus(c),
        r < modulus(c),
{
    let p: u64 = 0x8000_0000_0000_0000u64 - c;
    let v = a + b;
    proof {
        let pi = modulus(c);
        if v >= pi {
            lemma_mod_sub_multiples_vanish(v as int, pi);
            lemma_small_mod((v - pi) as nat, pi as nat);
        } else {
            lemma_small_mod(v as nat, pi as nat);
        }
    }
    if v >= p {
        v - p
    } else {
        v
    }
}

/// `(a - b) mod p` for reduced operands.
pub fn sub_mod(a: u64, b: u64, c: u64) -> (r: u64)
    requires
        small_c(c),
        a < modulus(c),
        b < modulus(c),
    ensures
        r == (a - b) % modulus(c),
        r < modulus(c),
{
    let p: u64 = 0x8000_0000_0000_0000u64 - c;
    proof {
        let pi = modulus(c);
        if a >= b {
            lemma_small_mod((a - b) as nat, pi as nat);
        } else {
            lemma_mod_add_multiples_vanish(a - b, pi);
            lemma_small_mod((a - b + pi) as nat, pi as nat);
        }
    }
    if a >= b {
        a - b
    } else {
        a + p - b
    }
}

/// `(-a) mod p` for a reduced operand.
pub fn neg_mod(a: u64, c: u64) -> (r: u64)
    requires
        small_c(c),
        a < modulus(c),
    ensures
        r == (-a) % modulus(c),
        r < modulus(c),
{
    let p: u64 = 0x8000_0000_0000_0000u64 - c;
    proof {
        let pi = modulus(c);
        if a == 0 {
            lemma_small_mod(0, pi as nat);
        } else {
            lemma_mod_add_multiples_vanish(-a, pi);
            lemma_small_mod((pi - a) as nat, pi as nat);
        }
    }
    if a == 0 {
        0
    } else {
        p - a
    }
}

/// `x < a * b` with `a > 0` bounds the quotient `x / a` below `b`.
proof fn lemma_quotient_bound(x: int, a: int, b: int)
    requires
        a > 0,
        0 <= x < a * b,
    ensures
        x / a < b,
{
    lemma_fundamental_div_mod(x, a);
    lemma_mod_bound(x, a);
    if x / a >= b {
        lemma_mul_inequality(b, x / a, a);
        lemma_mul_is_commutative(a, x / a);
        lemma_mul_is_commutative(a, b);
    }
}

/// One folding step: `v = hi * 2^63 + lo` is congruent to `hi * c + lo`.
proof fn lemma_fold(v: int, hi: int, lo: int, c: int)
    requires
        v == hi * two63() + lo,
        1 <= c < two63(),
    ensures
        (hi * c + lo) % (two63() - c) == v % (two63() - c),
{
    let p = two63() - c;
    assert(hi * two63() == hi * p + hi * c) by {
        lemma_mul_is_distributive_add(hi, p, c);
    }
    assert(v == p * hi + (hi * c + lo)) by {
        lemma_mul_is_commutative(hi, p);
    }
    lemma_mod_multiples_vanish(hi, hi * c + lo, p);
}

/// `(a * b) mod p` for reduced operands, by folding the high half of the
/// 126-bit product twice with `2^63 = c (mod p)`.
pub fn mul_mod(a: u64, b: u64, c: u64) -> (r: u64)
    requires
        small_c(c),
        a < modulus(c),
        b < modulus(c),
    ensures
        r == (a * b) % modulus(c),
        r < modulus(c),
{
    let p: u64 = 0x8000_0000_0000_0000u64 - c;
    let ghost pi = modulus(c);
    let ghost m = two63();
    assert(a * b < 0x4000_0000_0000_0000_0000_0000_0000_0000) by (nonlinear_arith)
        requires
            a < 0x8000_0000_0000_0000int,
            b < 0x8000_0000_0000_0000int,
    ;
    let v0: u128 = a as u128 * b as u128;
    let hi0 = v0 >> 63u32;
    let lo0 = v0 & 0x7fff_ffff_ffff_ffffu128;
    assert(hi0 == v0 / 0x8000_0000_0000_0000u128 && lo0 == v0 % 0x8000_0000_0000_0000u128)
        by (bit_vector)
        requires
            hi0 == v0 >> 63u32,
            lo0 == v0 & 0x7fff_ffff_ffff_ffffu128,
    ;
    assert(v0 == hi0 * m + lo0) by {
        lemma_fundamental_div_mod(v0 as int, m);
        lemma_mul_is_commutative(hi0 as int, m);
    }
    assert(hi0 < m) by {
        lemma_quotient_bound(v0 as int, m, m);
    }
    assert(hi0 * c <= m * c) by {
        lemma_mul_inequality(hi0 as int, m, c as int);
    }
    assert(m * c < 0x4000_0000_0000_0000_0000_0000) by (nonlinear_arith)
        requires
            m == 0x8000_0000_0000_0000int,
            c < 0x8000_0000,
    ;
    let v1: u128 = hi0 * (c as u128) + lo0;
    proof {
        lemma_fold(v0 as int, hi0 as int, lo0 as int, c as int);
    }
    let hi1 = v1 >> 63u32;
    let lo1 = v1 & 0x7fff_ffff_ffff_ffffu128;
    assert(hi1 == v1 / 0x8000_0000_0000_0000u128 && lo1 == v1 % 0x8000_0000_0000_0000u128)
        by (bit_vector)
        requires
            hi1 == v1 >> 63u32,
            lo1 == v1 & 0x7fff_ffff_ffff_ffffu128,
    ;
    assert(v1 == hi1 * m + lo1) by {
        lemma_fundamental_div_mod(v1 as int, m);
        lemma_mul_is_commutative(hi1 as int, m);
    }
    assert(v1 < m * (c + 1)) by {
        lemma_mul_is_distributive_add(m, c as int, 1);
    }
    assert(hi1 <= c) by {
        lemma_quotient_bound(v1 as int, m, c + 1);
    }
    assert(hi1 * c <= c * c) by {
        lemma_mul_inequality(hi1 as int, c as int, c as int);
    }
    assert(c * c < 0x4000_0000_0000_0000) by (nonlinear_arith)
        requires
            c < 0x8000_0000,
    ;
    let mut v2: u128 = hi1 * (c as u128) + lo1;
    proof {
        lemma_fold(v1 as int, hi1 as int, lo1 as int, c as int);
    }
    if v2 >= p as u128 {
        proof {
            lemma_mod_sub_multiples_vanish(v2 as int, pi);
        }
        v2 = v2 - p as u128;
    }
    proof {
        lemma_small_mod(v2 as nat, pi as nat);
    }
    v2 as u64
}

/// `a^e mod p` by square-and-multiply.
pub fn pow_mod_u64(a: u64, e: u64, c: u64) -> (r: u64)
    requires
        small_c(c),
        a < modulus(c),
    ensures
        r == pow_mod(a as int, e as nat, modulus(c)),
        r < modulus(c),
{
    let ghost pi = modulus(c);
    let mut result: u64 = 1;
    let mut base: u64 = a;
    let mut exp: u64 = e;
    proof {
        lemma_small_mod(1, pi as nat);
        lemma_pow0(a as int);
        lemma_mul_basics(pow(a as int, e as nat));
    }
    while exp > 0
        invariant
            small_c(c),
            pi == modulus(c),
            result < pi,
            base < pi,
            (result * pow(base as int, exp as nat)) % pi == pow(a as int, e as nat) % pi,
        decreases exp,
    {
        let ghost old_result = result;
        let ghost old_base = base;
        let ghost old_exp = exp;
        let bit = exp & 1;
        assert(bit == exp % 2) by (bit_vector)
            requires
                bit == exp & 1,
        ;
        if bit == 1 {
            result = mul_mod(result, base, c);
        }
        base = mul_mod(base, base, c);
        let next = exp >> 1u32;
        assert(next == exp / 2) by (bit_vector)
            requires
                next == exp >> 1u32,
        ;
        exp = next;
        proof {
            lemma_pow_step(old_result as int, old_base as int, old_exp as nat, result as int,
                base as int, exp as nat, pi);
        }
    }
    proof {
        lemma_pow0(base as int);
        lemma_mul_basics(result as int);
        lemma_small_mod(result as nat, pi as nat);
    }
    result
}

/// One square-and-multiply step keeps `result * base^exp` fixed modulo `p`.
proof fn lemma_pow_step(r0: int, b0: int, e0: nat, r1: int, b1: int, e1: nat, p: int)
    requires
        p > 1,
        e0 > 0,
        e1 == e0 / 2,
        b1 == (b0 * b0) % p,
        e0 % 2 == 1 ==> r1 == (r0 * b0) % p,
        e0 % 2 == 0 ==> r1 == r0,
    ensures
        (r1 * pow(b1, e1)) % p == (r0 * pow(b0, e0)) % p,
{
    // b0^e0 == b0^(e0 % 2) * (b0^2)^e1
    assert(pow(b0, 2) == b0 * b0) by {
        lemma_square_is_pow2(b0);
    }
    lemma_pow_multiplies(b0, 2, e1);
    assert(e0 == 2 * e1 + e0 % 2);
    lemma_pow_adds(b0, 2 * e1, (e0 % 2) as nat);
    assert(pow(b0, e0) == pow(b0 * b0, e1) * pow(b0, (e0 % 2) as nat));
    // (b0*b0 % p)^e1 == (b0*b0)^e1 (mod p)
    lemma_pow_mod_noop(b0 * b0, e1, p);
    let q = pow(b0 * b0, e1);
    let q1 = pow(b1, e1);
    assert(q1 % p == q % p);
    if e0 % 2 == 1 {
        lemma_pow1(b0);
        assert(pow(b0, e0) == q * b0);
        // r1 * q1 == (r0 * b0 % p) * q1 == r0 * b0 * q (mod p)
        lemma_mul_mod_noop_left(r0 * b0, q1, p);
        lemma_mul_mod_noop_right(r0 * b0, q1, p);
        lemma_mul_mod_noop_right(r0 * b0, q, p);
        assert((r0 * b0) * q == r0 * (q * b0)) by {
            lemma_mul_is_associative(r0, b0, q);
            lemma_mul_is_commutative(b0, q);
        }
    } else {
        lemma_pow0(b0);
        assert(pow(b0, e0) == q);
        lemma_mul_mod_noop_right(r0, q1, p);
        lemma_mul_mod_noop_right(r0, q, p);
    }
}


/// The little-endian value of eight bytes.
pub open spec fn le8(b: Seq<u8>) -> int {
    b[0] + b[1] * 0x100 + b[2] * 0x1_0000 + b[3] * 0x100_0000 + b[4] * 0x1_0000_0000 + b[5]
        * 0x100_0000_0000 + b[6] * 0x1_0000_0000_0000 + b[7] * 0x100_0000_0000_0000
}

/// The eight little-endian bytes of `v`.
pub fn u64_to_le(v: u64) -> (r: [u8; 8])
    ensures
        le8(r@) == v,
{
    let c0 = v & 0xff;
    let c1 = (v >> 8u64) & 0xff;
    let c2 = (v >> 16u64) & 0xff;
    let c3 = (v >> 24u64) & 0xff;
    let c4 = (v >> 32u64) & 0xff;
    let c5 = (v >> 40u64) & 0xff;
    let c6 = (v >> 48u64) & 0xff;
    let c7 = (v >> 56u64) & 0xff;
    assert(c0 < 0x100 && c1 < 0x100 && c2 < 0x100 && c3 < 0x100 && c4 < 0x100 && c5 < 0x100 && c6
        < 0x100 && c7 < 0x100 && v == c0 + c1 * 0x100 + c2 * 0x1_0000 + c3 * 0x100_0000 + c4
        * 0x1_0000_0000 + c5 * 0x100_0000_0000 + c6 * 0x1_0000_0000_0000 + c7
        * 0x100_0000_0000_0000) by (bit_vector)
        requires
            c0 == v & 0xff,
            c1 == (v >> 8u64) & 0xff,
            c2 == (v >> 16u64) & 0xff,
            c3 == (v >> 24u64) & 0xff,
            c4 == (v >> 32u64) & 0xff,
            c5 == (v >> 40u64) & 0xff,
            c6 == (v >> 48u64) & 0xff,
            c7 == (v >> 56u64) & 0xff,
    ;
    let r = [c0 as u8, c1 as u8, c2 as u8, c3 as u8, c4 as u8, c5 as u8, c6 as u8, c7 as u8];
    assert(r@[0] == c0 && r@[1] == c1 && r@[2] == c2 && r@[3] == c3);
    assert(r@[4] == c4 && r@[5] == c5 && r@[6] == c6 && r@[7] == c7);
    r
}

/// The `u64` with the little-endian bytes `b`.
pub fn u64_from_le(b: [u8; 8]) -> (r: u64)
    ensures
        r == le8(b@),
{
    let b0 = b[0] as u64;
    let b1 = b[1] as u64;
    let b2 = b[2] as u64;
    let b3 = b[3] as u64;
    let b4 = b[4] as u64;
    let b5 = b[5] as u64;
    let b6 = b[6] as u64;
    let b7 = b[7] as u64;
    assert(b0 < 0x100 && b1 < 0x100 && b2 < 0x100 && b3 < 0x100);
    assert(b4 < 0x100 && b5 < 0x100 && b6 < 0x100 && b7 < 0x100);
    b0 + b1 * 0x100 + b2 * 0x1_0000 + b3 * 0x100_0000 + b4 * 0x1_0000_0000 + b5 * 0x100_0000_0000
        + b6 * 0x1_0000_0000_0000 + b7 * 0x100_0000_0000_0000
}


/// Eight bytes are determined by their little-endian value: the encoding
/// read back from a value is the one that was written.
pub proof fn lemma_le8_injective(a: Seq<u8>, b: Seq<u8>)
    requires
        a.len() == 8,
        b.len() == 8,
        le8(a) == le8(b),
    ensures
        a == b,
{
    let r = 0x100int;
    let ra = a[1] + a[2] * 0x100 + a[3] * 0x1_0000 + a[4] * 0x100_0000 + a[5] * 0x1_0000_0000 + a[6]
        * 0x100_0000_0000 + a[7] * 0x1_0000_0000_0000;
    let rb = b[1] + b[2] * 0x100 + b[3] * 0x1_0000 + b[4] * 0x100_0000 + b[5] * 0x1_0000_0000 + b[6]
        * 0x100_0000_0000 + b[7] * 0x1_0000_0000_0000;
    assert(le8(a) == ra * r + a[0]);
    assert(le8(b) == rb * r + b[0]);
    lemma_fundamental_div_mod_converse(le8(a), r, ra, a[0] as int);
    lemma_fundamental_div_mod_converse(le8(b), r, rb, b[0] as int);
    assert(a[0] == b[0] && ra == rb);
    let sa = a[2] + a[3] * 0x100 + a[4] * 0x1_0000 + a[5] * 0x100_0000 + a[6] * 0x1_0000_0000 + a[7]
        * 0x100_0000_0000;
    let sb = b[2] + b[3] * 0x100 + b[4] * 0x1_0000 + b[5] * 0x100_0000 + b[6] * 0x1_0000_0000 + b[7]
        * 0x100_0000_0000;
    lemma_fundamental_div_mod_converse(ra, r, sa, a[1] as int);
    lemma_fundamental_div_mod_converse(rb, r, sb, b[1] as int);
    assert(a[1] == b[1] && sa == sb);
    let ta = a[3] + a[4] * 0x100 + a[5] * 0x1_0000 + a[6] * 0x100_0000 + a[7] * 0x1_0000_0000;
    let tb = b[3] + b[4] * 0x100 + b[5] * 0x1_0000 + b[6] * 0x100_0000 + b[7] * 0x1_0000_0000;
    lemma_fundamental_div_mod_converse(sa, r, ta, a[2] as int);
    lemma_fundamental_div_mod_converse(sb, r, tb, b[2] as int);
    assert(a[2] == b[2] && ta == tb);
    let ua = a[4] + a[5] * 0x100 + a[6] * 0x1_0000 + a[7] * 0x100_0000;
    let ub = b[4] + b[5] * 0x100 + b[6] * 0x1_0000 + b[7] * 0x100_0000;
    lemma_fundamental_div_mod_converse(ta, r, ua, a[3] as int);
    lemma_fundamental_div_mod_converse(tb, r, ub, b[3] as int);
    assert(a[3] == b[3] && ua == ub);
    let va = a[5] + a[6] * 0x100 + a[7] * 0x1_0000;
    let vb = b[5] + b[6] * 0x100 + b[7] * 0x1_0000;
    lemma_fundamental_div_mod_converse(ua, r, va, a[4] as int);
    lemma_fundamental_div_mod_converse(ub, r, vb, b[4] as int);
    assert(a[4] == b[4] && va == vb);
    let wa = a[6] + a[7] * 0x100;
    let wb = b[6] + b[7] * 0x100;
    lemma_fundamental_div_mod_converse(va, r, wa, a[5] as int);
    lemma_fundamental_div_mod_converse(vb, r, wb, b[5] as int);
    assert(a[5] == b[5] && wa == wb);
    lemma_fundamental_div_mod_converse(wa, r, a[7] as int, a[6] as int);
    lemma_fundamental_div_mod_converse(wb, r, b[7] as int, b[6] as int);
    assert(a[6] == b[6] && a[7] == b[7]);
    assert(a =~= b);
}

} // verus!
