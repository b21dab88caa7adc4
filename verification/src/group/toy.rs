//! A toy cyclic group of prime order: the additive group of `Z/qZ` with
//! `q = 2^63 - 25`, generated by `1`. The discrete logarithm of an element
//! is its own value, which makes the group a convenient testbed.
use vstd::prelude::*;

use crate::group::prime_field::{
    add_mod, le8, mul_mod, neg_mod, pow_mod, pow_mod_u64, reduce_u64, sub_mod, u64_from_le, u64_to_le,
};
use crate::group::{group_laws, negation_map_law, signed_gen_mul, unsigned_abs, KangarooGroup};

verus! {

/// An element of the prime field `Z/pZ` with `p = 2^63 - 25`, always
/// kept in its reduced form `0 <= x < p`.
#[derive(Copy, Clone, PartialEq, Eq, Debug, Hash, Structural)]
pub struct ToyScalar(u64);

impl View for ToyScalar {
    type V = int;

    closed spec fn view(&self) -> int {
        self.0 as int
    }
}

impl ToyScalar {
    /// The prime `p = 2^63 - 25`.
    pub const MODULUS: u64 = 0x7fff_ffff_ffff_ffe7;

    const C: u64 = 25;

    #[verifier::type_invariant]
    spec fn is_reduced(self) -> bool {
        self.0 < 0x7fff_ffff_ffff_ffe7
    }

    /// The modulus `p` as a mathematical integer.
    pub open spec fn modulus() -> int {
        0x7fff_ffff_ffff_ffe7int
    }

    /// Zero.
    pub fn zero() -> (r: Self)
        ensures
            r@ == 0,
    {
        ToyScalar(0)
    }

    /// One.
    pub fn one() -> (r: Self)
        ensures
            r@ == 1,
    {
        ToyScalar(1)
    }

    /// Every value has its representative `0 <= x < p`.
    pub fn reduced_value(&self) -> (r: u64)
        ensures
            r == self@,
            self@ < Self::modulus(),
    {
        proof {
            use_type_invariant(self);
        }
        self.0
    }

    /// `v mod p`, for any `u64`.
    pub fn from_u64_reduce(v: u64) -> (r: Self)
        ensures
            r@ == v as int % Self::modulus(),
    {
        ToyScalar(reduce_u64(v, Self::C))
    }

    /// The element `v`, for `v < p`.
    pub fn from_u64(v: u64) -> (r: Self)
        requires
            v < Self::modulus(),
        ensures
            r@ == v,
    {
        ToyScalar(v)
    }

    /// The element `v`, for `v < p` (a larger `v` is refused by a panic in
    /// `PrimeField::from_u128`, hence the requirement).
    pub fn from_u128(v: u128) -> (r: Self)
        requires
            v < Self::modulus(),
        ensures
            r@ == v,
    {
        ToyScalar(v as u64)
    }

    /// The eight little-endian bytes of the reduced value.
    pub fn to_repr(&self) -> (r: [u8; 8])
        ensures
            le8(r@) == self@,
    {
        u64_to_le(self.reduced_value())
    }

    /// The element with the little-endian encoding `repr`; `None` when the
    /// encoded value is not below `p`.
    pub fn from_repr(repr: [u8; 8]) -> (r: Option<Self>)
        ensures
            r is Some <==> le8(repr@) < Self::modulus(),
            r matches Some(e) ==> e@ == le8(repr@),
    {
        let v = u64_from_le(repr);
        if v < Self::MODULUS {
            Some(ToyScalar(v))
        } else {
            None
        }
    }

    /// `self + rhs (mod p)`.
    pub fn add(self, rhs: Self) -> (r: Self)
        ensures
            r@ == (self@ + rhs@) % Self::modulus(),
    {
        proof {
            use_type_invariant(&self);
            use_type_invariant(&rhs);
        }
        ToyScalar(add_mod(self.0, rhs.0, Self::C))
    }

    /// `self - rhs (mod p)`.
    pub fn sub(self, rhs: Self) -> (r: Self)
        ensures
            r@ == (self@ - rhs@) % Self::modulus(),
    {
        proof {
            use_type_invariant(&self);
            use_type_invariant(&rhs);
        }
        ToyScalar(sub_mod(self.0, rhs.0, Self::C))
    }

    /// `self * rhs (mod p)`.
    pub fn mul(self, rhs: Self) -> (r: Self)
        ensures
            r@ == (self@ * rhs@) % Self::modulus(),
    {
        proof {
            use_type_invariant(&self);
            use_type_invariant(&rhs);
        }
        ToyScalar(mul_mod(self.0, rhs.0, Self::C))
    }

    /// `-self (mod p)`.
    pub fn neg(self) -> (r: Self)
        ensures
            r@ == (-self@) % Self::modulus(),
    {
        proof {
            use_type_invariant(&self);
        }
        ToyScalar(neg_mod(self.0, Self::C))
    }

    /// `self^2 (mod p)`.
    pub fn square(self) -> (r: Self)
        ensures
            r@ == (self@ * self@) % Self::modulus(),
    {
        self.mul(self)
    }

    /// `2 * self (mod p)`.
    pub fn double(self) -> (r: Self)
        ensures
            r@ == (self@ + self@) % Self::modulus(),
    {
        self.add(self)
    }

    /// Whether this is zero.
    pub fn is_zero(&self) -> (r: bool)
        ensures
            r == (self@ == 0),
    {
        self.0 == 0
    }

    /// Whether the reduced representative is odd.
    pub fn is_odd(&self) -> (r: bool)
        ensures
            r == (self@ % 2 == 1),
    {
        let v = self.0;
        let bit = v & 1;
        assert(bit == v % 2) by (bit_vector)
            requires
                bit == v & 1,
        ;
        bit == 1
    }

    /// `self^rhs (mod p)` by square-and-multiply.
    pub fn pow_u64(self, rhs: u64) -> (r: Self)
        ensures
            r@ == pow_mod(self@, rhs as nat, Self::modulus()),
    {
        proof {
            use_type_invariant(&self);
        }
        ToyScalar(pow_mod_u64(self.0, rhs, Self::C))
    }

    /// `self^(p - 2) (mod p)`, the inverse of a nonzero element by Fermat's
    /// little theorem.
    pub fn inv(self) -> (r: Self)
        requires
            self@ != 0,
        ensures
            r@ == pow_mod(self@, (Self::modulus() - 2) as nat, Self::modulus()),
    {
        self.pow_u64(0x7fff_ffff_ffff_ffe7 - 2)
    }

    /// `self^rhs` for a signed exponent; a negative exponent raises the
    /// inverse to `|rhs|`.
    pub fn pow_i64(self, rhs: i64) -> (r: Self)
        requires
            rhs >= 0 || self@ != 0,
        ensures
            rhs < 0 ==> r@ == pow_mod(
                pow_mod(self@, (Self::modulus() - 2) as nat, Self::modulus()),
                (-rhs) as nat,
                Self::modulus(),
            ),
            rhs >= 0 ==> r@ == pow_mod(self@, rhs as nat, Self::modulus()),
    {
        if rhs < 0 {
            self.inv().pow_u64(unsigned_abs(rhs))
        } else {
            self.pow_u64(unsigned_abs(rhs))
        }
    }

    /// The inverse, or `None` for zero.
    pub fn invert(&self) -> (r: Option<Self>)
        ensures
            self@ == 0 ==> r is None,
            self@ != 0 ==> (r matches Some(v) && v@ == pow_mod(
                self@,
                (Self::modulus() - 2) as nat,
                Self::modulus(),
            )),
    {
        if self.is_zero() {
            None
        } else {
            Some(self.inv())
        }
    }

    /// A square root: `self^((p + 1) / 4)` when its square is `self`, else
    /// `None`.
    pub fn sqrt(&self) -> (r: Option<Self>)
        ensures
            ({
                let s = pow_mod(self@, ((Self::modulus() + 1) / 4) as nat, Self::modulus());
                &&& r is Some <==> (s * s) % Self::modulus() == self@
                &&& r matches Some(v) ==> v@ == s
            }),
    {
        let s = self.pow_u64((0x7fff_ffff_ffff_ffe7 + 1) / 4);
        let sq = s.square();
        if sq.0 == self.0 {
            Some(s)
        } else {
            None
        }
    }
}

/// An element of the toy group: `ToyGroup(x)` is `x * G` with `G = 1`.
#[derive(Copy, Clone, PartialEq, Eq, Debug, Hash, Structural)]
pub struct ToyGroup(ToyScalar);

impl View for ToyGroup {
    type V = int;

    /// The discrete logarithm of the element.
    closed spec fn view(&self) -> int {
        self.0@
    }
}

/// The order `q = 2^63 - 25` of the toy group.
pub open spec fn toy_order() -> int {
    0x7fff_ffff_ffff_ffe7int
}

/// The element with discrete logarithm `k mod q`.
pub closed spec fn toy_element(k: int) -> ToyGroup {
    ToyGroup(ToyScalar((k % toy_order()) as u64))
}

/// The 64-bit mixing function behind the toy group's hash-like maps:
/// the finaliser of SplitMix64 applied to `v ^ dst`.
pub open spec fn toy_digest(v: u64, dst: u64) -> u64 {
    let x0 = v ^ dst;
    let x1 = x0 ^ (x0 >> 30u64);
    let x2 = x1.wrapping_mul(0xbf58476d1ce4e5b9u64);
    let x3 = x2 ^ (x2 >> 27u64);
    let x4 = x3.wrapping_mul(0x94d049bb133111ebu64);
    x4 ^ (x4 >> 31u64)
}

/// Domain separators of the four maps: the little-endian readings of
/// `b"DSTNGSHD"`, `b"NEGATMAP"`, `b"THEBUCKT"` and `b"FUTPRINT"`.
pub const TOY_DISTINGUISHED_DST: u64 = 0x444853474e545344u64;

pub const TOY_NEGATION_MAP_DST: u64 = 0x50414d544147454eu64;

pub const TOY_BUCKET_DST: u64 = 0x544b435542454854u64;

pub const TOY_FOOTPRINT_DST: u64 = 0x544e495250545546u64;

proof fn lemma_toy_element_view(k: int)
    ensures
        toy_element(k)@ == k % toy_order(),
        toy_element(k).0.0 == k % toy_order(),
{
}

impl ToyGroup {
    /// The identity `0`.
    pub fn zero() -> (r: Self)
        ensures
            r@ == 0,
    {
        ToyGroup(ToyScalar::zero())
    }

    /// The generator `1`.
    pub fn one() -> (r: Self)
        ensures
            r@ == 1,
    {
        ToyGroup(ToyScalar::one())
    }

    /// `self + rhs`.
    pub fn add(self, rhs: Self) -> (r: Self)
        ensures
            r@ == (self@ + rhs@) % toy_order(),
    {
        ToyGroup(self.0.add(rhs.0))
    }

    /// `self - rhs`.
    pub fn sub(self, rhs: Self) -> (r: Self)
        ensures
            r@ == (self@ - rhs@) % toy_order(),
    {
        ToyGroup(self.0.sub(rhs.0))
    }

    /// `-self`.
    pub fn neg(self) -> (r: Self)
        ensures
            r@ == (-self@) % toy_order(),
    {
        ToyGroup(self.0.neg())
    }

    /// `2 * self`.
    pub fn double(&self) -> (r: Self)
        ensures
            r@ == (self@ + self@) % toy_order(),
    {
        ToyGroup(self.0.double())
    }

    /// `s * self` for any `u64` scalar (reduced modulo `q` first).
    pub fn scalar_mul_u64(self, s: u64) -> (r: Self)
        ensures
            r@ == (self@ * (s as int % toy_order())) % toy_order(),
    {
        ToyGroup(self.0.mul(ToyScalar::from_u64_reduce(s)))
    }

    /// `s * self` for a signed scalar: `|s| * (-self)` when `s < 0`.
    pub fn scalar_mul_i64(self, s: i64) -> (r: Self)
        ensures
            s < 0 ==> r@ == (((-self@) % toy_order()) * ((-(s as int)) % toy_order())) % toy_order(),
            s >= 0 ==> r@ == (self@ * (s as int % toy_order())) % toy_order(),
    {
        let s_abs = unsigned_abs(s);
        if s < 0 {
            self.neg().scalar_mul_u64(s_abs)
        } else {
            self.scalar_mul_u64(s_abs)
        }
    }

    /// `s * self` for a field scalar.
    pub fn mul(self, s: ToyScalar) -> (r: Self)
        ensures
            r@ == (self@ * s@) % toy_order(),
    {
        ToyGroup(self.0.mul(s))
    }

    /// `s * G`: the generator is `1`, so this is `s mod q`.
    pub fn generator_scalar_mul_u64(s: u64) -> (r: Self)
        ensures
            r@ == s as int % toy_order(),
    {
        ToyGroup(ToyScalar::from_u64_reduce(s))
    }

    /// `s * G` for a signed scalar.
    pub fn generator_scalar_mul_i64(s: i64) -> (r: Self)
        ensures
            r@ == (s as int) % toy_order(),
    {
        let s_abs = unsigned_abs(s);
        if s < 0 {
            let r = Self::generator_scalar_mul_u64(s_abs).neg();
            proof {
                let q = toy_order();
                vstd::arithmetic::div_mod::lemma_sub_mod_noop(0, -s as int, q);
            }
            r
        } else {
            Self::generator_scalar_mul_u64(s_abs)
        }
    }

    /// `s * G` for a field scalar.
    pub fn mul_by_generator(s: &ToyScalar) -> (r: Self)
        ensures
            r@ == s@,
    {
        ToyGroup(*s)
    }

    /// Whether this is the identity.
    pub fn is_identity(&self) -> (r: bool)
        ensures
            r == (self@ == 0),
    {
        self.0.is_zero()
    }

    /// The encoding of the element: the eight little-endian bytes of its
    /// logarithm.
    pub fn to_bytes(&self) -> (r: [u8; 8])
        ensures
            le8(r@) == self@,
    {
        self.0.to_repr()
    }

    /// The element with the encoding `bytes`; `None` when the encoded value
    /// is not below the group order.
    pub fn from_bytes(bytes: &[u8; 8]) -> (r: Option<Self>)
        ensures
            r is Some <==> le8(bytes@) < toy_order(),
            r matches Some(e) ==> e@ == le8(bytes@),
    {
        match ToyScalar::from_repr(*bytes) {
            Some(s) => Some(ToyGroup(s)),
            None => None,
        }
    }

    /// The SplitMix64 finaliser of the element's value mixed with `dst`.
    pub fn digest(&self, dst: u64) -> (r: u64)
        ensures
            r == toy_digest(self@ as u64, dst),
    {
        let v = self.0.reduced_value();
        let x0 = v ^ dst;
        let x1 = x0 ^ (x0 >> 30u64);
        let x2 = x1.wrapping_mul(0xbf58476d1ce4e5b9u64);
        let x3 = x2 ^ (x2 >> 27u64);
        let x4 = x3.wrapping_mul(0x94d049bb133111ebu64);
        x4 ^ (x4 >> 31u64)
    }
}

impl KangarooGroup for ToyGroup {
    open spec fn spec_order() -> int {
        toy_order()
    }

    closed spec fn wf(self) -> bool {
        self@ < toy_order()
    }

    closed spec fn spec_identity() -> Self {
        toy_element(0)
    }

    closed spec fn spec_generator() -> Self {
        toy_element(1)
    }

    closed spec fn spec_add(self, rhs: Self) -> Self {
        toy_element(self@ + rhs@)
    }

    closed spec fn spec_neg(self) -> Self {
        toy_element(-self@)
    }

    closed spec fn spec_scalar_mul(self, k: nat) -> Self {
        toy_element(self@ * k)
    }

    closed spec fn spec_gen_mul(k: int) -> Self {
        toy_element(k)
    }

    closed spec fn spec_key(self) -> u128 {
        self.0.0 as u128
    }

    open spec fn spec_is_distinguished(self, bits: u32) -> bool {
        toy_digest(self@ as u64, TOY_DISTINGUISHED_DST) >> (64 - bits) as u64 == 0
    }

    open spec fn spec_is_negation_map_representative(self) -> bool {
        toy_digest(self@ as u64, TOY_NEGATION_MAP_DST) < toy_digest(
            ((-self@) % toy_order()) as u64,
            TOY_NEGATION_MAP_DST,
        )
    }

    open spec fn spec_bucket(self, bits: u32) -> usize {
        (toy_digest(self@ as u64, TOY_BUCKET_DST) >> (64 - bits) as u64) as usize
    }

    open spec fn spec_footprint(self) -> u64 {
        toy_digest(self@ as u64, TOY_FOOTPRINT_DST)
    }

    fn identity() -> (r: Self) {
        Self::zero()
    }

    fn generator() -> (r: Self) {
        Self::one()
    }

    fn group_add(&self, rhs: &Self) -> (r: Self) {
        self.add(*rhs)
    }

    fn group_neg(&self) -> (r: Self) {
        self.neg()
    }

    fn group_sub(&self, rhs: &Self) -> (r: Self) {
        let r = self.sub(*rhs);
        proof {
            let q = toy_order();
            vstd::arithmetic::div_mod::lemma_sub_mod_noop(self@, rhs@, q);
            vstd::arithmetic::div_mod::lemma_add_mod_noop(self@, -rhs@, q);
            vstd::arithmetic::div_mod::lemma_sub_mod_noop(0, rhs@, q);
            vstd::arithmetic::div_mod::lemma_mod_twice(self@, q);
            vstd::arithmetic::div_mod::lemma_mod_twice(rhs@, q);
            use_type_invariant(&self.0);
            use_type_invariant(&rhs.0);
            vstd::arithmetic::div_mod::lemma_small_mod(self@ as nat, q as nat);
            vstd::arithmetic::div_mod::lemma_small_mod(rhs@ as nat, q as nat);
        }
        r
    }

    fn scalar_mul_u64(&self, s: u64) -> (r: Self) {
        proof {
            vstd::arithmetic::div_mod::lemma_small_mod(s as nat, toy_order() as nat);
        }
        ToyGroup::scalar_mul_u64(*self, s)
    }

    fn mul_by_generator_u64(s: u64) -> (r: Self) {
        Self::mul_by_generator(&ToyScalar::from_u64(s))
    }

    fn key(&self) -> (k: u128) {
        self.0.reduced_value() as u128
    }

    proof fn lemma_key_injective(a: Self, b: Self) {
    }

    fn is_distinguished(&self, bits: u32) -> (r: bool) {
        let d = self.digest(TOY_DISTINGUISHED_DST);
        (d >> (64 - bits)) == 0
    }

    fn is_negation_map_representative(&self) -> (r: bool) {
        self.digest(TOY_NEGATION_MAP_DST) < self.neg().digest(TOY_NEGATION_MAP_DST)
    }

    fn bucket(&self, bits: u32) -> (r: usize) {
        let d = self.digest(TOY_BUCKET_DST);
        let shift: u64 = (64 - bits) as u64;
        let b = d >> shift;
        let bits64: u64 = bits as u64;
        assert(b < (1u64 << bits64)) by (bit_vector)
            requires
                b == d >> shift,
                shift == 64 - bits64,
                0 < bits64 < 32,
        ;
        proof {
            vstd::arithmetic::power2::lemma_pow2_strictly_increases(bits64 as nat, 32);
            vstd::arithmetic::power2::lemma2_to64();
            vstd::bits::lemma_u64_shl_is_mul(1, bits64);
        }
        b as usize
    }

    fn footprint(&self) -> (r: u64) {
        self.digest(TOY_FOOTPRINT_DST)
    }
}

/// The toy group's own signed generator multiple agrees with the generic
/// one and with multiplying the generator `1` by the scalar: all three are
/// `s mod q`.
pub proof fn lemma_toy_generator_scalar_mul(s: int)
    ensures
        signed_gen_mul::<ToyGroup>(s)@ == s % toy_order(),
        s < 0 ==> (((-1int) % toy_order()) * ((-s) % toy_order())) % toy_order() == s
            % toy_order(),
        s >= 0 ==> (1 * (s % toy_order())) % toy_order() == s % toy_order(),
{
    let q = toy_order();
    lemma_toy_element_view(s);
    if s < 0 {
        lemma_toy_element_view(-s);
        lemma_toy_element_view(-((-s) % q));
        vstd::arithmetic::div_mod::lemma_sub_mod_noop(0, -s, q);
        vstd::arithmetic::div_mod::lemma_mul_mod_noop_general(-1, -s, q);
        assert(-1 * -s == s);
        assert((-1int) % q == q - 1);
    }
}

/// The toy group satisfies the laws the solvers rely on.
pub proof fn lemma_toy_group_laws()
    ensures
        group_laws::<ToyGroup>(),
{
    let q = toy_order();
    assert forall|a: int, b: int| #[trigger]
        ToyGroup::spec_gen_mul(a).spec_add(ToyGroup::spec_gen_mul(b)) == ToyGroup::spec_gen_mul(
            a + b,
        ) by {
        lemma_toy_element_view(a);
        lemma_toy_element_view(b);
        vstd::arithmetic::div_mod::lemma_add_mod_noop(a, b, q);
    }
    assert forall|a: int| #[trigger]
        ToyGroup::spec_gen_mul(a).spec_neg() == ToyGroup::spec_gen_mul(-a) by {
        lemma_toy_element_view(a);
        vstd::arithmetic::div_mod::lemma_sub_mod_noop(0, a, q);
    }
    assert forall|a: int, k: nat| #[trigger]
        ToyGroup::spec_gen_mul(a).spec_scalar_mul(k) == ToyGroup::spec_gen_mul(a * k) by {
        lemma_toy_element_view(a);
        vstd::arithmetic::div_mod::lemma_mul_mod_noop_left(a, k as int, q);
    }
    assert forall|a: int, b: int|
        #![trigger ToyGroup::spec_gen_mul(a), ToyGroup::spec_gen_mul(b)]
        ToyGroup::spec_gen_mul(a) == ToyGroup::spec_gen_mul(b) <==> a % q == b % q by {
        lemma_toy_element_view(a);
        lemma_toy_element_view(b);
    }
    assert forall|e: ToyGroup| #[trigger] e.wf() implies exists|x: int|
        ToyGroup::spec_gen_mul(x) == e by {
        vstd::arithmetic::div_mod::lemma_small_mod(e@ as nat, q as nat);
        lemma_toy_element_view(e@);
        assert(ToyGroup::spec_gen_mul(e@) == e);
    }
}


/// Multiplying by `c` modulo `2^64` is undone by multiplying by `cinv` when
/// `c * cinv == 1 (mod 2^64)`.
proof fn lemma_wrapping_mul_undone(x: u64, c: u64, cinv: u64)
    requires
        (c * cinv) % 0x1_0000_0000_0000_0000int == 1,
    ensures
        (x.wrapping_mul(c) * cinv) % 0x1_0000_0000_0000_0000int == x,
{
    let m = 0x1_0000_0000_0000_0000int;
    assert(x.wrapping_mul(c) as int == (x * c) % m);
    vstd::arithmetic::div_mod::lemma_mul_mod_noop_left(x * c, cinv as int, m);
    vstd::arithmetic::mul::lemma_mul_is_associative(x as int, c as int, cinv as int);
    vstd::arithmetic::div_mod::lemma_mul_mod_noop_right(x as int, c * cinv, m);
    vstd::arithmetic::div_mod::lemma_small_mod(x as nat, m as nat);
}

/// The SplitMix64 finaliser (after the domain separation) is one-to-one.
pub proof fn lemma_toy_digest_injective(v: u64, w: u64, dst: u64)
    requires
        toy_digest(v, dst) == toy_digest(w, dst),
    ensures
        v == w,
{
    let a0 = v ^ dst;
    let a1 = a0 ^ (a0 >> 30u64);
    let a2 = a1.wrapping_mul(0xbf58476d1ce4e5b9u64);
    let a3 = a2 ^ (a2 >> 27u64);
    let a4 = a3.wrapping_mul(0x94d049bb133111ebu64);
    let a5 = a4 ^ (a4 >> 31u64);
    let b0 = w ^ dst;
    let b1 = b0 ^ (b0 >> 30u64);
    let b2 = b1.wrapping_mul(0xbf58476d1ce4e5b9u64);
    let b3 = b2 ^ (b2 >> 27u64);
    let b4 = b3.wrapping_mul(0x94d049bb133111ebu64);
    let b5 = b4 ^ (b4 >> 31u64);
    assert(a5 == b5);
    assert(a4 == a5 ^ (a5 >> 31u64) ^ (a5 >> 62u64)) by (bit_vector)
        requires
            a5 == a4 ^ (a4 >> 31u64),
    ;
    assert(b4 == b5 ^ (b5 >> 31u64) ^ (b5 >> 62u64)) by (bit_vector)
        requires
            b5 == b4 ^ (b4 >> 31u64),
    ;
    assert(a4 == b4);
    lemma_wrapping_mul_undone(a3, 0x94d049bb133111ebu64, 0x319642b2d24d8ec3u64);
    lemma_wrapping_mul_undone(b3, 0x94d049bb133111ebu64, 0x319642b2d24d8ec3u64);
    assert(a3 == b3);
    assert(a2 == a3 ^ (a3 >> 27u64) ^ (a3 >> 54u64)) by (bit_vector)
        requires
            a3 == a2 ^ (a2 >> 27u64),
    ;
    assert(b2 == b3 ^ (b3 >> 27u64) ^ (b3 >> 54u64)) by (bit_vector)
        requires
            b3 == b2 ^ (b2 >> 27u64),
    ;
    assert(a2 == b2);
    lemma_wrapping_mul_undone(a1, 0xbf58476d1ce4e5b9u64, 0x96de1b173f119089u64);
    lemma_wrapping_mul_undone(b1, 0xbf58476d1ce4e5b9u64, 0x96de1b173f119089u64);
    assert(a1 == b1);
    assert(a0 == a1 ^ (a1 >> 30u64) ^ (a1 >> 60u64)) by (bit_vector)
        requires
            a1 == a0 ^ (a0 >> 30u64),
    ;
    assert(b0 == b1 ^ (b1 >> 30u64) ^ (b1 >> 60u64)) by (bit_vector)
        requires
            b1 == b0 ^ (b0 >> 30u64),
    ;
    assert(a0 == b0);
    assert(v == w) by (bit_vector)
        requires
            v ^ dst == w ^ dst,
    ;
}

/// In the toy group, exactly one of `x` and `-x` (for `x != 0`) is the
/// representative of its class: their digests differ.
pub proof fn lemma_toy_negation_map_law()
    ensures
        negation_map_law::<ToyGroup>(),
{
    let q = toy_order();
    assert forall|a: int|
        #![trigger ToyGroup::spec_gen_mul(a), ToyGroup::spec_gen_mul(-a)]
        ToyGroup::spec_gen_mul(a) != ToyGroup::spec_gen_mul(-a) implies ToyGroup::spec_gen_mul(
        a,
    ).spec_is_negation_map_representative() != ToyGroup::spec_gen_mul(
        -a,
    ).spec_is_negation_map_representative() by {
        lemma_toy_element_view(a);
        lemma_toy_element_view(-a);
        let v = a % q;
        let w = (-a) % q;
        assert(ToyGroup::spec_gen_mul(a)@ == v);
        assert(ToyGroup::spec_gen_mul(-a)@ == w);
        vstd::arithmetic::div_mod::lemma_sub_mod_noop(0, a, q);
        vstd::arithmetic::div_mod::lemma_sub_mod_noop(0, -a, q);
        assert((-v) % q == w);
        assert((-w) % q == v);
        assert(v != w);
        if toy_digest(v as u64, TOY_NEGATION_MAP_DST) == toy_digest(w as u64, TOY_NEGATION_MAP_DST) {
            lemma_toy_digest_injective(v as u64, w as u64, TOY_NEGATION_MAP_DST);
        }
    }
}

} // verus!
