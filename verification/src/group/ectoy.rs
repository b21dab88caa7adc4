//! A toy elliptic curve `y^2 = x^3 + 3` over the prime field of order
//! `2^63 - 4321`, whose group of points is claimed to have the prime order
//! `2^63 - 0x5634b119` with generator `(1, 2)`. The point at infinity is
//! written `(0, 0)`; no affine point has `x = 0`, as `3` is not a square.
use vstd::arithmetic::div_mod::*;
use vstd::prelude::*;

use crate::group::prime_field::{
    add_mod, le8, mul_mod, neg_mod, pow_mod, pow_mod_u64, reduce_u64, sub_mod, u64_from_le, u64_to_le,
};
use crate::group::{group_laws, negation_map_law, unsigned_abs, KangarooGroup};

verus! {

/// An element of the prime field `Z/pZ` with `p = 2^63 - 4321`, always
/// kept in its reduced form `0 <= x < p`.
#[derive(Copy, Clone, PartialEq, Eq, Debug, Hash, Structural)]
pub struct ECToyField(u64);

impl View for ECToyField {
    type V = int;

    closed spec fn view(&self) -> int {
        self.0 as int
    }
}

impl ECToyField {
    /// The prime `p = 2^63 - 4321`.
    pub const MODULUS: u64 = 0x7fff_ffff_ffff_ef1f;

    const C: u64 = 4321;

    #[verifier::type_invariant]
    spec fn is_reduced(self) -> bool {
        self.0 < 0x7fff_ffff_ffff_ef1f
    }

    /// The modulus `p` as a mathematical integer.
    pub open spec fn modulus() -> int {
        0x7fff_ffff_ffff_ef1fint
    }

    /// Zero.
    pub fn zero() -> (r: Self)
        ensures
            r@ == 0,
    {
        ECToyField(0)
    }

    /// One.
    pub fn one() -> (r: Self)
        ensures
            r@ == 1,
    {
        ECToyField(1)
    }

    /// Every value has its representative `0 <= x < p`.
    pub fn reduced_value(&self) -> (r: u64)
        ensures
            r == self@,
            self@ < Self::modulus(),
    {
        proof {
            use_type_invariant(self);
        }
        self.0
    }

    /// `v mod p`, for any `u64`.
    pub fn from_u64_reduce(v: u64) -> (r: Self)
        ensures
            r@ == v as int % Self::modulus(),
    {
        ECToyField(reduce_u64(v, Self::C))
    }

    /// The element `v`, for `v < p`.
    pub fn from_u64(v: u64) -> (r: Self)
        requires
            v < Self::modulus(),
        ensures
            r@ == v,
    {
        ECToyField(v)
    }

    /// The element `v`, for `v < p` (a larger `v` is refused by a panic in
    /// `PrimeField::from_u128`, hence the requirement).
    pub fn from_u128(v: u128) -> (r: Self)
        requires
            v < Self::modulus(),
        ensures
            r@ == v,
    {
        ECToyField(v as u64)
    }

    /// The eight little-endian bytes of the reduced value.
    pub fn to_repr(&self) -> (r: [u8; 8])
        ensures
            le8(r@) == self@,
    {
        u64_to_le(self.reduced_value())
    }

    /// The element with the little-endian encoding `repr`; `None` when the
    /// encoded value is not below `p`.
    pub fn from_repr(repr: [u8; 8]) -> (r: Option<Self>)
        ensures
            r is Some <==> le8(repr@) < Self::modulus(),
            r matches Some(e) ==> e@ == le8(repr@),
    {
        let v = u64_from_le(repr);
        if v < Self::MODULUS {
            Some(ECToyField(v))
        } else {
            None
        }
    }

    /// `self + rhs (mod p)`.
    pub fn add(self, rhs: Self) -> (r: Self)
        ensures
            r@ == (self@ + rhs@) % Self::modulus(),
    {
        proof {
            use_type_invariant(&self);
            use_type_invariant(&rhs);
        }
        ECToyField(add_mod(self.0, rhs.0, Self::C))
    }

    /// `self - rhs (mod p)`.
    pub fn sub(self, rhs: Self) -> (r: Self)
        ensures
            r@ == (self@ - rhs@) % Self::modulus(),
    {
        proof {
            use_type_invariant(&self);
            use_type_invariant(&rhs);
        }
        ECToyField(sub_mod(self.0, rhs.0, Self::C))
    }

    /// `self * rhs (mod p)`.
    pub fn mul(self, rhs: Self) -> (r: Self)
        ensures
            r@ == (self@ * rhs@) % Self::modulus(),
    {
        proof {
            use_type_invariant(&self);
            use_type_invariant(&rhs);
        }
        ECToyField(mul_mod(self.0, rhs.0, Self::C))
    }

    /// `-self (mod p)`.
    pub fn neg(self) -> (r: Self)
        ensures
            r@ == (-self@) % Self::modulus(),
    {
        proof {
            use_type_invariant(&self);
        }
        ECToyField(neg_mod(self.0, Self::C))
    }

    /// `self^2 (mod p)`.
    pub fn square(self) -> (r: Self)
        ensures
            r@ == (self@ * self@) % Self::modulus(),
    {
        self.mul(self)
    }

    /// `2 * self (mod p)`.
    pub fn double(self) -> (r: Self)
        ensures
            r@ == (self@ + self@) % Self::modulus(),
    {
        self.add(self)
    }

    /// Whether this is zero.
    pub fn is_zero(&self) -> (r: bool)
        ensures
            r == (self@ == 0),
    {
        self.0 == 0
    }

    /// Whether the reduced representative is odd.
    pub fn is_odd(&self) -> (r: bool)
        ensures
            r == (self@ % 2 == 1),
    {
        let v = self.0;
        let bit = v & 1;
        assert(bit == v % 2) by (bit_vector)
            requires
                bit == v & 1,
        ;
        bit == 1
    }

    /// `self^rhs (mod p)` by square-and-multiply.
    pub fn pow_u64(self, rhs: u64) -> (r: Self)
        ensures
            r@ == pow_mod(self@, rhs as nat, Self::modulus()),
    {
        proof {
            use_type_invariant(&self);
        }
        ECToyField(pow_mod_u64(self.0, rhs, Self::C))
    }

    /// `self^(p - 2) (mod p)`, the inverse of a nonzero element by Fermat's
    /// little theorem.
    pub fn inv(self) -> (r: Self)
        requires
            self@ != 0,
        ensures
            r@ == pow_mod(self@, (Self::modulus() - 2) as nat, Self::modulus()),
    {
        self.pow_u64(0x7fff_ffff_ffff_ef1f - 2)
    }

    /// `self^rhs` for a signed exponent; a negative exponent raises the
    /// inverse to `|rhs|`.
    pub fn pow_i64(self, rhs: i64) -> (r: Self)
        requires
            rhs >= 0 || self@ != 0,
        ensures
            rhs < 0 ==> r@ == pow_mod(
                pow_mod(self@, (Self::modulus() - 2) as nat, Self::modulus()),
                (-rhs) as nat,
                Self::modulus(),
            ),
            rhs >= 0 ==> r@ == pow_mod(self@, rhs as nat, Self::modulus()),
    {
        if rhs < 0 {
            self.inv().pow_u64(unsigned_abs(rhs))
        } else {
            self.pow_u64(unsigned_abs(rhs))
        }
    }

    /// The inverse, or `None` for zero.
    pub fn invert(&self) -> (r: Option<Self>)
        ensures
            self@ == 0 ==> r is None,
            self@ != 0 ==> (r matches Some(v) && v@ == pow_mod(
                self@,
                (Self::modulus() - 2) as nat,
                Self::modulus(),
            )),
    {
        if self.is_zero() {
            None
        } else {
            Some(self.inv())
        }
    }

    /// A square root: `self^((p + 1) / 4)` when its square is `self`, else
    /// `None`.
    pub fn sqrt(&self) -> (r: Option<Self>)
        ensures
            ({
                let s = pow_mod(self@, ((Self::modulus() + 1) / 4) as nat, Self::modulus());
                &&& r is Some <==> (s * s) % Self::modulus() == self@
                &&& r matches Some(v) ==> v@ == s
            }),
    {
        let s = self.pow_u64((0x7fff_ffff_ffff_ef1f + 1) / 4);
        let sq = s.square();
        if sq.0 == self.0 {
            Some(s)
        } else {
            None
        }
    }
}

/// An element of the prime field `Z/pZ` with `p = 2^63 - 0x5634b119`, always
/// kept in its reduced form `0 <= x < p`.
#[derive(Copy, Clone, PartialEq, Eq, Debug, Hash, Structural)]
pub struct ECToyScalar(u64);

impl View for ECToyScalar {
    type V = int;

    closed spec fn view(&self) -> int {
        self.0 as int
    }
}

impl ECToyScalar {
    /// The prime `p = 2^63 - 0x5634b119`.
    pub const MODULUS: u64 = 0x7fff_ffff_a9cb_4ee7;

    const C: u64 = 0x5634b119;

    #[verifier::type_invariant]
    spec fn is_reduced(self) -> bool {
        self.0 < 0x7fff_ffff_a9cb_4ee7
    }

    /// The modulus `p` as a mathematical integer.
    pub open spec fn modulus() -> int {
        0x7fff_ffff_a9cb_4ee7int
    }

    /// Zero.
    pub fn zero() -> (r: Self)
        ensures
            r@ == 0,
    {
        ECToyScalar(0)
    }

    /// One.
    pub fn one() -> (r: Self)
        ensures
            r@ == 1,
    {
        ECToyScalar(1)
    }

    /// Every value has its representative `0 <= x < p`.
    pub fn reduced_value(&self) -> (r: u64)
        ensures
            r == self@,
            self@ < Self::modulus(),
    {
        proof {
            use_type_invariant(self);
        }
        self.0
    }

    /// `v mod p`, for any `u64`.
    pub fn from_u64_reduce(v: u64) -> (r: Self)
        ensures
            r@ == v as int % Self::modulus(),
    {
        ECToyScalar(reduce_u64(v, Self::C))
    }

    /// The element `v`, for `v < p`.
    pub fn from_u64(v: u64) -> (r: Self)
        requires
            v < Self::modulus(),
        ensures
            r@ == v,
    {
        ECToyScalar(v)
    }

    /// The element `v`, for `v < p` (a larger `v` is refused by a panic in
    /// `PrimeField::from_u128`, hence the requirement).
    pub fn from_u128(v: u128) -> (r: Self)
        requires
            v < Self::modulus(),
        ensures
            r@ == v,
    {
        ECToyScalar(v as u64)
    }

    /// The eight little-endian bytes of the reduced value.
    pub fn to_repr(&self) -> (r: [u8; 8])
        ensures
            le8(r@) == self@,
    {
        u64_to_le(self.reduced_value())
    }

    /// The element with the little-endian encoding `repr`; `None` when the
    /// encoded value is not below `p`.
    pub fn from_repr(repr: [u8; 8]) -> (r: Option<Self>)
        ensures
            r is Some <==> le8(repr@) < Self::modulus(),
            r matches Some(e) ==> e@ == le8(repr@),
    {
        let v = u64_from_le(repr);
        if v < Self::MODULUS {
            Some(ECToyScalar(v))
        } else {
            None
        }
    }

    /// `self + rhs (mod p)`.
    pub fn add(self, rhs: Self) -> (r: Self)
        ensures
            r@ == (self@ + rhs@) % Self::modulus(),
    {
        proof {
            use_type_invariant(&self);
            use_type_invariant(&rhs);
        }
        ECToyScalar(add_mod(self.0, rhs.0, Self::C))
    }

    /// `self - rhs (mod p)`.
    pub fn sub(self, rhs: Self) -> (r: Self)
        ensures
            r@ == (self@ - rhs@) % Self::modulus(),
    {
        proof {
            use_type_invariant(&self);
            use_type_invariant(&rhs);
        }
        ECToyScalar(sub_mod(self.0, rhs.0, Self::C))
    }

    /// `self * rhs (mod p)`.
    pub fn mul(self, rhs: Self) -> (r: Self)
        ensures
            r@ == (self@ * rhs@) % Self::modulus(),
    {
        proof {
            use_type_invariant(&self);
            use_type_invariant(&rhs);
        }
        ECToyScalar(mul_mod(self.0, rhs.0, Self::C))
    }

    /// `-self (mod p)`.
    pub fn neg(self) -> (r: Self)
        ensures
            r@ == (-self@) % Self::modulus(),
    {
        proof {
            use_type_invariant(&self);
        }
        ECToyScalar(neg_mod(self.0, Self::C))
    }

    /// `self^2 (mod p)`.
    pub fn square(self) -> (r: Self)
        ensures
            r@ == (self@ * self@) % Self::modulus(),
    {
        self.mul(self)
    }

    /// `2 * self (mod p)`.
    pub fn double(self) -> (r: Self)
        ensures
            r@ == (self@ + self@) % Self::modulus(),
    {
        self.add(self)
    }

    /// Whether this is zero.
    pub fn is_zero(&self) -> (r: bool)
        ensures
            r == (self@ == 0),
    {
        self.0 == 0
    }

    /// Whether the reduced representative is odd.
    pub fn is_odd(&self) -> (r: bool)
        ensures
            r == (self@ % 2 == 1),
    {
        let v = self.0;
        let bit = v & 1;
        assert(bit == v % 2) by (bit_vector)
            requires
                bit == v & 1,
        ;
        bit == 1
    }

    /// `self^rhs (mod p)` by square-and-multiply.
    pub fn pow_u64(self, rhs: u64) -> (r: Self)
        ensures
            r@ == pow_mod(self@, rhs as nat, Self::modulus()),
    {
        proof {
            use_type_invariant(&self);
        }
        ECToyScalar(pow_mod_u64(self.0, rhs, Self::C))
    }

    /// `self^(p - 2) (mod p)`, the inverse of a nonzero element by Fermat's
    /// little theorem.
    pub fn inv(self) -> (r: Self)
        requires
            self@ != 0,
        ensures
            r@ == pow_mod(self@, (Self::modulus() - 2) as nat, Self::modulus()),
    {
        self.pow_u64(0x7fff_ffff_a9cb_4ee7 - 2)
    }

    /// `self^rhs` for a signed exponent; a negative exponent raises the
    /// inverse to `|rhs|`.
    pub fn pow_i64(self, rhs: i64) -> (r: Self)
        requires
            rhs >= 0 || self@ != 0,
        ensures
            rhs < 0 ==> r@ == pow_mod(
                pow_mod(self@, (Self::modulus() - 2) as nat, Self::modulus()),
                (-rhs) as nat,
                Self::modulus(),
            ),
            rhs >= 0 ==> r@ == pow_mod(self@, rhs as nat, Self::modulus()),
    {
        if rhs < 0 {
            self.inv().pow_u64(unsigned_abs(rhs))
        } else {
            self.pow_u64(unsigned_abs(rhs))
        }
    }

    /// The inverse, or `None` for zero.
    pub fn invert(&self) -> (r: Option<Self>)
        ensures
            self@ == 0 ==> r is None,
            self@ != 0 ==> (r matches Some(v) && v@ == pow_mod(
                self@,
                (Self::modulus() - 2) as nat,
                Self::modulus(),
            )),
    {
        if self.is_zero() {
            None
        } else {
            Some(self.inv())
        }
    }

    /// A square root: `self^((p + 1) / 4)` when its square is `self`, else
    /// `None`.
    pub fn sqrt(&self) -> (r: Option<Self>)
        ensures
            ({
                let s = pow_mod(self@, ((Self::modulus() + 1) / 4) as nat, Self::modulus());
                &&& r is Some <==> (s * s) % Self::modulus() == self@
                &&& r matches Some(v) ==> v@ == s
            }),
    {
        let s = self.pow_u64((0x7fff_ffff_a9cb_4ee7 + 1) / 4);
        let sq = s.square();
        if sq.0 == self.0 {
            Some(s)
        } else {
            None
        }
    }
}

/// The field modulus `p = 2^63 - 4321`.
pub open spec fn fp() -> int {
    0x7fff_ffff_ffff_ef1fint
}

/// Field addition on reduced values.
pub open spec fn f_add(a: int, b: int) -> int {
    (a + b) % fp()
}

/// Field subtraction on reduced values.
pub open spec fn f_sub(a: int, b: int) -> int {
    (a - b) % fp()
}

/// Field multiplication on reduced values.
pub open spec fn f_mul(a: int, b: int) -> int {
    (a * b) % fp()
}

/// Field negation on reduced values.
pub open spec fn f_neg(a: int) -> int {
    (-a) % fp()
}

/// Field inversion as computed: `a^(p - 2)`.
pub open spec fn f_inv(a: int) -> int {
    pow_mod(a, (fp() - 2) as nat, fp())
}

/// The point at infinity, written `(0, 0)`.
pub open spec fn ec_identity() -> (int, int) {
    (0, 0)
}

/// The generator `(1, 2)`.
pub open spec fn ec_generator() -> (int, int) {
    (1, 2)
}

/// Whether `(x, y)` is the point at infinity or satisfies `y^2 = x^3 + 3`.
pub open spec fn ec_on_curve(p: (int, int)) -> bool {
    if p.0 == 0 {
        p.1 == 0
    } else {
        f_mul(p.1, p.1) == f_add(f_mul(f_mul(p.0, p.0), p.0), 3)
    }
}

/// `-P = (x, -y)`.
pub open spec fn ec_neg(p: (int, int)) -> (int, int) {
    (p.0, f_neg(p.1))
}

/// Tangent doubling `2P`; a point with `y = 0` (or infinity) doubles to
/// infinity.
pub open spec fn ec_double(p: (int, int)) -> (int, int) {
    if p.0 == 0 || p.1 == 0 {
        ec_identity()
    } else {
        let l = f_mul(f_mul(3, f_mul(p.0, p.0)), f_inv(f_add(p.1, p.1)));
        let x = f_sub(f_mul(l, l), f_add(p.0, p.0));
        let y = f_sub(f_mul(l, f_sub(p.0, x)), p.1);
        (x, y)
    }
}

/// Chord-and-tangent addition `P + Q`.
pub open spec fn ec_add(p: (int, int), q: (int, int)) -> (int, int) {
    if p.0 == 0 {
        q
    } else if q.0 == 0 {
        p
    } else if p.0 == q.0 {
        if p.1 == q.1 {
            ec_double(p)
        } else {
            ec_identity()
        }
    } else {
        let l = f_mul(f_sub(q.1, p.1), f_inv(f_sub(q.0, p.0)));
        let x = f_sub(f_sub(f_mul(l, l), p.0), q.0);
        let y = f_sub(f_mul(l, f_sub(p.0, x)), p.1);
        (x, y)
    }
}

/// `acc + k * base` by the binary method: add `base` for each set bit of
/// `k`, doubling `base` from the lowest bit up.
pub open spec fn ec_mul_acc(acc: (int, int), base: (int, int), k: nat) -> (int, int)
    decreases k,
{
    if k == 0 {
        acc
    } else {
        ec_mul_acc(
            if k % 2 == 1 {
                ec_add(acc, base)
            } else {
                acc
            },
            ec_double(base),
            k / 2,
        )
    }
}

/// `k * P` by the binary method.
pub open spec fn ec_mul(p: (int, int), k: nat) -> (int, int) {
    ec_mul_acc(ec_identity(), p, k)
}

/// The order of the curve group, `2^63 - 0x5634b119`.
pub open spec fn ec_order() -> int {
    0x7fff_ffff_a9cb_4ee7int
}

/// The byte-reversed `u64`.
pub open spec fn spec_swap_bytes(v: u64) -> u64 {
    ((v & 0xff) << 56u64) | (((v >> 8u64) & 0xff) << 48u64) | (((v >> 16u64) & 0xff) << 40u64)
        | (((v >> 24u64) & 0xff) << 32u64) | (((v >> 32u64) & 0xff) << 24u64) | (((v >> 40u64)
        & 0xff) << 16u64) | (((v >> 48u64) & 0xff) << 8u64) | (v >> 56u64)
}

/// The byte order of `v` reversed.
fn swap_bytes(v: u64) -> (r: u64)
    ensures
        r == spec_swap_bytes(v),
{
    ((v & 0xff) << 56u64) | (((v >> 8u64) & 0xff) << 48u64) | (((v >> 16u64) & 0xff) << 40u64)
        | (((v >> 24u64) & 0xff) << 32u64) | (((v >> 32u64) & 0xff) << 24u64) | (((v >> 40u64)
        & 0xff) << 16u64) | (((v >> 48u64) & 0xff) << 8u64) | (v >> 56u64)
}

/// For reduced `a != b`, `b - a` is nonzero modulo `p`.
proof fn lemma_diff_nonzero(a: int, b: int)
    requires
        0 <= a < fp(),
        0 <= b < fp(),
        a != b,
    ensures
        f_sub(b, a) != 0,
{
    if b > a {
        lemma_small_mod((b - a) as nat, fp() as nat);
    } else {
        lemma_mod_add_multiples_vanish(b - a, fp());
        lemma_small_mod((b - a + fp()) as nat, fp() as nat);
    }
}

/// For reduced nonzero `y`, `2y` is nonzero modulo the odd prime `p`.
proof fn lemma_double_nonzero(y: int)
    requires
        0 < y < fp(),
    ensures
        f_add(y, y) != 0,
{
    if y + y < fp() {
        lemma_small_mod((y + y) as nat, fp() as nat);
    } else {
        lemma_mod_sub_multiples_vanish(y + y, fp());
        lemma_small_mod((y + y - fp()) as nat, fp() as nat);
    }
}

/// A point of the toy curve in affine coordinates, `(0, 0)` for infinity.
#[derive(Copy, Clone, PartialEq, Eq, Debug, Hash, Structural)]
pub struct ECToyGroup {
    x: ECToyField,
    y: ECToyField,
}

impl View for ECToyGroup {
    type V = (int, int);

    closed spec fn view(&self) -> (int, int) {
        (self.x@, self.y@)
    }
}

/// The point with the given reduced coordinates.
pub closed spec fn ec_point(p: (int, int)) -> ECToyGroup {
    ECToyGroup { x: ECToyField(p.0 as u64), y: ECToyField(p.1 as u64) }
}

impl ECToyGroup {
    /// Both coordinates of an executable point are reduced.
    pub fn reduced_coords(&self) -> (r: (u64, u64))
        ensures
            r.0 == self@.0,
            r.1 == self@.1,
            0 <= self@.0 < fp(),
            0 <= self@.1 < fp(),
            ec_point(self@) == *self,
    {
        (self.x.reduced_value(), self.y.reduced_value())
    }

    /// The point at infinity.
    pub fn identity() -> (r: Self)
        ensures
            r@ == ec_identity(),
    {
        ECToyGroup { x: ECToyField::zero(), y: ECToyField::zero() }
    }

    /// The generator `(1, 2)`.
    pub fn generator() -> (r: Self)
        ensures
            r@ == ec_generator(),
    {
        ECToyGroup { x: ECToyField::one(), y: ECToyField::from_u64(2) }
    }

    /// The point `(x, y)` if it is on the curve (or is `(0, 0)`).
    pub fn from_xy(x: ECToyField, y: ECToyField) -> (r: Option<Self>)
        ensures
            ec_on_curve((x@, y@)) ==> (r matches Some(p) && p@ == (x@, y@)),
            !ec_on_curve((x@, y@)) ==> r is None,
    {
        let point = ECToyGroup { x, y };
        if point.is_valid() {
            Some(point)
        } else {
            None
        }
    }

    /// The encoding of the point: the little-endian bytes of `x`, then those
    /// of `y`.
    pub fn to_bytes(&self) -> (r: [u8; 16])
        ensures
            le8(r@.subrange(0, 8)) == self@.0,
            le8(r@.subrange(8, 16)) == self@.1,
    {
        let xb = self.x.to_repr();
        let yb = self.y.to_repr();
        let r = [
            xb[0],
            xb[1],
            xb[2],
            xb[3],
            xb[4],
            xb[5],
            xb[6],
            xb[7],
            yb[0],
            yb[1],
            yb[2],
            yb[3],
            yb[4],
            yb[5],
            yb[6],
            yb[7],
        ];
        assert(r@.subrange(0, 8) =~= xb@);
        assert(r@.subrange(8, 16) =~= yb@);
        r
    }

    /// The point with the encoding `bytes`: `None` when a coordinate is not
    /// below `p` or `(x, y)` is neither on the curve nor `(0, 0)`.
    pub fn from_bytes(bytes: &[u8; 16]) -> (r: Option<Self>)
        ensures
            r is Some <==> le8(bytes@.subrange(0, 8)) < fp() && le8(bytes@.subrange(8, 16)) < fp()
                && ec_on_curve((le8(bytes@.subrange(0, 8)), le8(bytes@.subrange(8, 16)))),
            r matches Some(pt) ==> pt@ == (le8(bytes@.subrange(0, 8)), le8(bytes@.subrange(8, 16))),
    {
        let x_bytes = [
            bytes[0],
            bytes[1],
            bytes[2],
            bytes[3],
            bytes[4],
            bytes[5],
            bytes[6],
            bytes[7],
        ];
        let y_bytes = [
            bytes[8],
            bytes[9],
            bytes[10],
            bytes[11],
            bytes[12],
            bytes[13],
            bytes[14],
            bytes[15],
        ];
        assert(x_bytes@ =~= bytes@.subrange(0, 8));
        assert(y_bytes@ =~= bytes@.subrange(8, 16));
        let x = ECToyField::from_repr(x_bytes);
        let y = ECToyField::from_repr(y_bytes);
        match (x, y) {
            (Some(x), Some(y)) => Self::from_xy(x, y),
            _ => None,
        }
    }

    /// The x-coordinate.
    pub fn x(&self) -> (r: ECToyField)
        ensures
            r@ == self@.0,
    {
        self.x
    }

    /// The y-coordinate.
    pub fn y(&self) -> (r: ECToyField)
        ensures
            r@ == self@.1,
    {
        self.y
    }

    /// Whether this is the point at infinity.
    pub fn is_identity(&self) -> (r: bool)
        ensures
            r == (self@.0 == 0),
    {
        self.x.is_zero()
    }

    /// Whether the point is infinity or lies on the curve.
    pub fn is_valid(&self) -> (r: bool)
        ensures
            r == ec_on_curve(self@),
    {
        if self.is_identity() {
            return self.y.is_zero();
        }
        let lhs = self.y.square();
        let rhs = self.x.square().mul(self.x).add(ECToyField::from_u64(3));
        lhs.reduced_value() == rhs.reduced_value()
    }

    /// `P + Q` by the chord-and-tangent rule.
    pub fn add(self, rhs: Self) -> (r: Self)
        ensures
            r@ == ec_add(self@, rhs@),
    {
        let _ = self.reduced_coords();
        let _ = rhs.reduced_coords();
        if self.is_identity() {
            return rhs;
        }
        if rhs.is_identity() {
            return self;
        }
        if self.x.reduced_value() == rhs.x.reduced_value() {
            if self.y.reduced_value() == rhs.y.reduced_value() {
                return self.double();
            }
            return Self::identity();
        }
        proof {
            lemma_diff_nonzero(self@.0, rhs@.0);
        }
        let lambda = rhs.y.sub(self.y).mul(rhs.x.sub(self.x).inv());
        let x = lambda.square().sub(self.x).sub(rhs.x);
        let y = lambda.mul(self.x.sub(x)).sub(self.y);
        ECToyGroup { x, y }
    }

    /// `P - Q = P + (-Q)`.
    pub fn sub(self, rhs: Self) -> (r: Self)
        ensures
            r@ == ec_add(self@, ec_neg(rhs@)),
    {
        self.add(rhs.neg())
    }

    /// `-P = (x, -y)`.
    pub fn neg(self) -> (r: Self)
        ensures
            r@ == ec_neg(self@),
    {
        ECToyGroup { x: self.x, y: self.y.neg() }
    }

    /// `2P` by the tangent rule.
    pub fn double(&self) -> (r: Self)
        ensures
            r@ == ec_double(self@),
    {
        let _ = self.reduced_coords();
        if self.is_identity() || self.y.is_zero() {
            return Self::identity();
        }
        proof {
            lemma_double_nonzero(self@.1);
        }
        let lambda = ECToyField::from_u64(3).mul(self.x.square()).mul(self.y.double().inv());
        let x = lambda.square().sub(self.x.double());
        let y = lambda.mul(self.x.sub(x)).sub(self.y);
        ECToyGroup { x, y }
    }

    /// `scalar * P` by the binary method.
    pub fn scalar_mul_u64(&self, scalar: u64) -> (r: Self)
        ensures
            r@ == ec_mul(self@, scalar as nat),
    {
        let ghost k0 = scalar;
        let mut scalar = scalar;
        let mut result = Self::identity();
        let mut base = *self;
        while scalar > 0
            invariant
                ec_mul_acc(result@, base@, scalar as nat) == ec_mul(self@, k0 as nat),
            decreases scalar,
        {
            let bit = scalar & 1;
            assert(bit == scalar % 2) by (bit_vector)
                requires
                    bit == scalar & 1,
            ;
            if bit == 1 {
                result = result.add(base);
            }
            base = base.double();
            let next = scalar >> 1u32;
            assert(next == scalar / 2) by (bit_vector)
                requires
                    next == scalar >> 1u32,
            ;
            scalar = next;
        }
        result
    }

    /// `scalar * P` for a signed scalar: `-(|scalar| * P)` when negative.
    pub fn scalar_mul_i64(&self, scalar: i64) -> (r: Self)
        ensures
            scalar < 0 ==> r@ == ec_neg(ec_mul(self@, (-scalar) as nat)),
            scalar >= 0 ==> r@ == ec_mul(self@, scalar as nat),
    {
        let s = unsigned_abs(scalar);
        if scalar < 0 {
            self.scalar_mul_u64(s).neg()
        } else {
            self.scalar_mul_u64(s)
        }
    }

    /// `scalar * P` for a curve scalar.
    pub fn mul(self, scalar: ECToyScalar) -> (r: Self)
        ensures
            r@ == ec_mul(self@, scalar@ as nat),
    {
        let s = scalar.reduced_value();
        self.scalar_mul_u64(s)
    }

    /// `scalar * G`.
    pub fn mul_by_generator(scalar: &ECToyScalar) -> (r: Self)
        ensures
            r@ == ec_mul(ec_generator(), scalar@ as nat),
    {
        let s = scalar.reduced_value();
        Self::generator().scalar_mul_u64(s)
    }
}

/// The curve as a group for the solvers. `group_laws::<ECToyGroup>()` is not
/// established here: it needs associativity of the chord-and-tangent rule,
/// whose field divisions rest on `a * a^(p - 2) = 1` (Fermat, with the
/// primality of `p`), and that the generator has order `ec_order()`. What
/// the solvers state under the group laws is therefore claimed for this
/// curve only under that premise; their exact run specifications, which
/// describe what they compute, hold for it as for any group.
impl KangarooGroup for ECToyGroup {
    open spec fn spec_order() -> int {
        ec_order()
    }

    open spec fn wf(self) -> bool {
        ec_on_curve(self@)
    }

    open spec fn spec_identity() -> Self {
        ec_point(ec_identity())
    }

    open spec fn spec_generator() -> Self {
        ec_point(ec_generator())
    }

    open spec fn spec_add(self, rhs: Self) -> Self {
        ec_point(ec_add(self@, rhs@))
    }

    open spec fn spec_neg(self) -> Self {
        ec_point(ec_neg(self@))
    }

    open spec fn spec_scalar_mul(self, k: nat) -> Self {
        ec_point(ec_mul(self@, k))
    }

    open spec fn spec_gen_mul(k: int) -> Self {
        ec_point(ec_mul(ec_generator(), (k % ec_order()) as nat))
    }

    open spec fn spec_key(self) -> u128 {
        (self@.0 * 0x1_0000_0000_0000_0000 + self@.1) as u128
    }

    open spec fn spec_is_distinguished(self, bits: u32) -> bool {
        self@.0 % vstd::arithmetic::power2::pow2(bits as nat) as int == 0
    }

    open spec fn spec_is_negation_map_representative(self) -> bool {
        self@.1 % 2 == 0
    }

    open spec fn spec_bucket(self, bits: u32) -> usize {
        let x = self@.0 as u64;
        (spec_swap_bytes(x ^ (x >> 32u64)) >> (64 - bits) as u64) as usize
    }

    open spec fn spec_footprint(self) -> u64 {
        self@.0 as u64
    }

    fn identity() -> (r: Self) {
        let r = ECToyGroup::identity();
        let _ = r.reduced_coords();
        r
    }

    fn generator() -> (r: Self) {
        let r = ECToyGroup::generator();
        let _ = r.reduced_coords();
        r
    }

    fn group_add(&self, rhs: &Self) -> (r: Self) {
        let r = self.add(*rhs);
        let _ = r.reduced_coords();
        r
    }

    fn group_neg(&self) -> (r: Self) {
        let r = self.neg();
        let _ = r.reduced_coords();
        r
    }

    fn group_sub(&self, rhs: &Self) -> (r: Self) {
        let r = self.sub(*rhs);
        let _ = r.reduced_coords();
        r
    }

    fn scalar_mul_u64(&self, s: u64) -> (r: Self) {
        let r = ECToyGroup::scalar_mul_u64(self, s);
        let _ = r.reduced_coords();
        r
    }

    fn mul_by_generator_u64(s: u64) -> (r: Self) {
        let r = ECToyGroup::mul_by_generator(&ECToyScalar::from_u64(s));
        let _ = r.reduced_coords();
        proof {
            lemma_small_mod(s as nat, ec_order() as nat);
        }
        r
    }

    fn key(&self) -> (k: u128) {
        let (x, y) = self.reduced_coords();
        (x as u128) * 0x1_0000_0000_0000_0000u128 + (y as u128)
    }

    proof fn lemma_key_injective(a: Self, b: Self) {
        let k = 0x1_0000_0000_0000_0000int;
        let ka = a@.0 * k + a@.1;
        let kb = b@.0 * k + b@.1;
        assert(0 <= ka < 0x1_0000_0000_0000_0000_0000_0000_0000_0000) by (nonlinear_arith)
            requires
                ka == a@.0 * k + a@.1,
                k == 0x1_0000_0000_0000_0000int,
                0 <= a@.0 < k,
                0 <= a@.1 < k,
        ;
        assert(0 <= kb < 0x1_0000_0000_0000_0000_0000_0000_0000_0000) by (nonlinear_arith)
            requires
                kb == b@.0 * k + b@.1,
                k == 0x1_0000_0000_0000_0000int,
                0 <= b@.0 < k,
                0 <= b@.1 < k,
        ;
        if a.spec_key() == b.spec_key() {
            assert(ka == kb);
            lemma_fundamental_div_mod_converse(ka, k, a@.0, a@.1);
            lemma_fundamental_div_mod_converse(kb, k, b@.0, b@.1);
            assert(a.x == b.x);
            assert(a.y == b.y);
        }
    }

    fn is_distinguished(&self, bits: u32) -> (r: bool) {
        let (x, _) = self.reduced_coords();
        let b: u64 = bits as u64;
        proof {
            vstd::arithmetic::power2::lemma_pow2_strictly_increases(b as nat, 64);
            vstd::arithmetic::power2::lemma_pow2_pos(b as nat);
            vstd::arithmetic::power2::lemma2_to64_rest();
            vstd::bits::lemma_u64_shl_is_mul(1, b);
        }
        let mask: u64 = (1u64 << b) - 1;
        let low = x & mask;
        proof {
            vstd::bits::lemma_u64_low_bits_mask_is_mod(x, b as nat);
            vstd::bits::lemma_low_bits_mask_values();
        }
        low == 0
    }

    fn is_negation_map_representative(&self) -> (r: bool) {
        !self.y.is_odd()
    }

    fn bucket(&self, bits: u32) -> (r: usize) {
        let (x, _) = self.reduced_coords();
        let mixed = swap_bytes(x ^ (x >> 32u64));
        let shift: u64 = (64 - bits) as u64;
        let b = mixed >> shift;
        let bits64: u64 = bits as u64;
        assert(b < (1u64 << bits64)) by (bit_vector)
            requires
                b == mixed >> shift,
                shift == 64 - bits64,
                0 < bits64 < 32,
        ;
        proof {
            vstd::arithmetic::power2::lemma_pow2_strictly_increases(bits64 as nat, 32);
            vstd::arithmetic::power2::lemma2_to64();
            vstd::bits::lemma_u64_shl_is_mul(1, bits64);
        }
        b as usize
    }

    fn footprint(&self) -> (r: u64) {
        let (x, _) = self.reduced_coords();
        x
    }
}


/// Both coordinates are field elements `0 <= c < p`.
pub open spec fn ec_reduced(p: (int, int)) -> bool {
    0 <= p.0 < fp() && 0 <= p.1 < fp()
}

/// Doubling keeps coordinates reduced.
proof fn lemma_ec_double_reduced(p: (int, int))
    requires
        ec_reduced(p),
    ensures
        ec_reduced(ec_double(p)),
{
}

/// Addition keeps coordinates reduced.
proof fn lemma_ec_add_reduced(p: (int, int), q: (int, int))
    requires
        ec_reduced(p),
        ec_reduced(q),
    ensures
        ec_reduced(ec_add(p, q)),
{
    if p.0 != 0 && q.0 != 0 && p.0 == q.0 && p.1 == q.1 {
        lemma_ec_double_reduced(p);
    }
}

/// The binary method keeps coordinates reduced.
proof fn lemma_ec_mul_acc_reduced(acc: (int, int), base: (int, int), k: nat)
    requires
        ec_reduced(acc),
        ec_reduced(base),
    ensures
        ec_reduced(ec_mul_acc(acc, base, k)),
    decreases k,
{
    if k > 0 {
        lemma_ec_add_reduced(acc, base);
        lemma_ec_double_reduced(base);
        let next = if k % 2 == 1 {
            ec_add(acc, base)
        } else {
            acc
        };
        lemma_ec_mul_acc_reduced(next, ec_double(base), k / 2);
    }
}

/// The negation laws of the curve on points with reduced coordinates: the
/// negation of a point of the curve is on the curve, negating twice gives
/// the point back, a point plus its negation is infinity, and infinity is
/// its own negation and its own double.
pub proof fn lemma_ec_negation_laws(p: (int, int))
    requires
        ec_reduced(p),
        ec_on_curve(p),
    ensures
        ec_reduced(ec_neg(p)),
        ec_on_curve(ec_neg(p)),
        ec_neg(ec_neg(p)) == p,
        ec_add(p, ec_neg(p)) == ec_identity(),
        ec_neg(ec_identity()) == ec_identity(),
        ec_double(ec_identity()) == ec_identity(),
{
    let y = p.1;
    let q = fp();
    if y == 0 {
        assert(f_neg(0) == 0);
    } else {
        assert(f_neg(y) == q - y);
        assert(f_neg(q - y) == y);
        assert(f_mul(q - y, q - y) == f_mul(y, y)) by (nonlinear_arith)
            requires
                q == fp(),
                0 < y < q,
        {
            assert((q - y) * (q - y) == y * y + q * (q - 2 * y));
            vstd::arithmetic::div_mod::lemma_mod_multiples_vanish(q - 2 * y, y * y, q);
        }
    }
    assert(f_neg(0) == 0);
    if p.0 != 0 {
        if p.1 == f_neg(p.1) {
            assert(p.1 == 0);
        }
    }
}

/// Under the group laws, exactly one of two distinct opposite points is the
/// representative of their class: `y` and `p - y` have different parities.
pub proof fn lemma_ec_negation_map_law()
    requires
        group_laws::<ECToyGroup>(),
    ensures
        negation_map_law::<ECToyGroup>(),
{
    assert forall|a: int|
        #![trigger ECToyGroup::spec_gen_mul(a), ECToyGroup::spec_gen_mul(-a)]
        ECToyGroup::spec_gen_mul(a) != ECToyGroup::spec_gen_mul(-a) implies ECToyGroup::spec_gen_mul(
        a,
    ).spec_is_negation_map_representative() != ECToyGroup::spec_gen_mul(
        -a,
    ).spec_is_negation_map_representative() by {
        let pt = ec_mul(ec_generator(), (a % ec_order()) as nat);
        lemma_ec_mul_acc_reduced(ec_identity(), ec_generator(), (a % ec_order()) as nat);
        assert(ECToyGroup::spec_gen_mul(a)@ == pt);
        assert(ECToyGroup::spec_gen_mul(a).spec_neg() == ECToyGroup::spec_gen_mul(-a));
        assert(ECToyGroup::spec_gen_mul(-a)@ == ec_neg(pt));
        if pt.1 == 0 {
            assert(ec_neg(pt) == pt);
            assert(ECToyGroup::spec_gen_mul(-a) == ec_point(ec_neg(pt)));
            assert(ECToyGroup::spec_gen_mul(a) == ec_point(pt));
        } else {
            assert(f_neg(pt.1) == fp() - pt.1);
        }
    }
}

} // verus!
