//! Groups for interval discrete-logarithm experiments.
//!
//! The algorithms are written against [`KangarooGroup`]: a cyclic group of
//! odd prime order with a distinguished generator `G`, plus a few
//! hash-like maps from elements to bits (distinguished points, buckets,
//! negation-map representatives). Each implementation states what its
//! operations compute over its own spec functions; [`group_laws`] collects
//! the facts about them that the algorithms rely on.
use vstd::prelude::*;


pub mod ectoy;
pub mod helpers;
pub mod prime_field;
pub mod toy;

verus! {

/// `|x|`.
pub open spec fn abs_int(x: int) -> int {
    if x < 0 {
        -x
    } else {
        x
    }
}

/// `|s|` as an unsigned integer; defined for every `i64`, `i64::MIN` included.
pub fn unsigned_abs(s: i64) -> (r: u64)
    ensures
        r == abs_int(s as int),
{
    if s < 0 {
        let t = -(s + 1);
        t as u64 + 1
    } else {
        s as u64
    }
}

/// A cyclic group used by the discrete-logarithm solvers.
pub trait KangarooGroup: Sized + Copy {
    /// The order of the group (and the modulus of its scalars).
    spec fn spec_order() -> int;

    /// A well-formed element (for instance: a point on the curve).
    spec fn wf(self) -> bool;

    /// The neutral element.
    spec fn spec_identity() -> Self;

    /// The generator `G`.
    spec fn spec_generator() -> Self;

    /// The group operation.
    spec fn spec_add(self, rhs: Self) -> Self;

    /// The inverse.
    spec fn spec_neg(self) -> Self;

    /// `k * self` for `0 <= k`, as this group computes it.
    spec fn spec_scalar_mul(self, k: nat) -> Self;

    /// `k * G`, as this group computes it from the reduced scalar `k mod order`.
    spec fn spec_gen_mul(k: int) -> Self;

    /// An integer that identifies the element (used as a hash-map key).
    spec fn spec_key(self) -> u128;

    /// The distinguished-point predicate for `bits` bits.
    spec fn spec_is_distinguished(self, bits: u32) -> bool;

    /// Which of `P` and `-P` stands for the class `{P, -P}`.
    spec fn spec_is_negation_map_representative(self) -> bool;

    /// The jump-table bucket of the element for `bits` bits.
    spec fn spec_bucket(self, bits: u32) -> usize;

    /// A 64-bit fingerprint of the element (used to detect short cycles).
    spec fn spec_footprint(self) -> u64;

    /// The neutral element.
    fn identity() -> (r: Self)
        ensures
            r == Self::spec_identity(),
    ;

    /// The generator `G`.
    fn generator() -> (r: Self)
        ensures
            r == Self::spec_generator(),
    ;

    /// `self + rhs`.
    fn group_add(&self, rhs: &Self) -> (r: Self)
        ensures
            r == self.spec_add(*rhs),
    ;

    /// `-self`.
    fn group_neg(&self) -> (r: Self)
        ensures
            r == self.spec_neg(),
    ;

    /// `self - rhs`, that is `self + (-rhs)`.
    fn group_sub(&self, rhs: &Self) -> (r: Self)
        ensures
            r == self.spec_add(rhs.spec_neg()),
    ;

    /// `s * self` for a scalar `s` below the group order.
    fn scalar_mul_u64(&self, s: u64) -> (r: Self)
        requires
            s < Self::spec_order(),
        ensures
            r == self.spec_scalar_mul(s as nat),
    ;

    /// `s * G` for a scalar `s` below the group order.
    fn mul_by_generator_u64(s: u64) -> (r: Self)
        requires
            s < Self::spec_order(),
        ensures
            r == Self::spec_gen_mul(s as int),
    ;

    /// The key that identifies the element.
    fn key(&self) -> (k: u128)
        ensures
            k == self.spec_key(),
    ;

    /// Two elements with the same key are equal.
    proof fn lemma_key_injective(a: Self, b: Self)
        ensures
            a.spec_key() == b.spec_key() ==> a == b,
    ;

    /// Whether the element is a distinguished point for `bits` bits.
    fn is_distinguished(&self, bits: u32) -> (r: bool)
        requires
            0 < bits < 64,
        ensures
            r == self.spec_is_distinguished(bits),
    ;

    /// Whether the element represents its class `{P, -P}`.
    fn is_negation_map_representative(&self) -> (r: bool)
        ensures
            r == self.spec_is_negation_map_representative(),
    ;

    /// The bucket of the element, below `2^bits`.
    fn bucket(&self, bits: u32) -> (r: usize)
        requires
            0 < bits < 32,
        ensures
            r == self.spec_bucket(bits),
            r < vstd::arithmetic::power2::pow2(bits as nat),
    ;

    /// The fingerprint of the element.
    fn footprint(&self) -> (r: u64)
        ensures
            r == self.spec_footprint(),
    ;
}

/// The facts about a group that the discrete-logarithm algorithms rely on:
/// the group has odd order `q > 2`, `k -> k * G` is a homomorphism from the
/// integers onto the group whose kernel is `qZ`, negation and scalar
/// multiplication agree with it, and every well-formed element is a multiple
/// of `G`.
pub open spec fn group_laws<G: KangarooGroup>() -> bool {
    let q = G::spec_order();
    &&& q > 2
    &&& q % 2 == 1
    &&& G::spec_identity() == G::spec_gen_mul(0)
    &&& G::spec_generator() == G::spec_gen_mul(1)
    &&& forall|a: int, b: int| #[trigger]
        G::spec_gen_mul(a).spec_add(G::spec_gen_mul(b)) == G::spec_gen_mul(a + b)
    &&& forall|a: int| #[trigger] G::spec_gen_mul(a).spec_neg() == G::spec_gen_mul(-a)
    &&& forall|a: int, k: nat| #[trigger]
        G::spec_gen_mul(a).spec_scalar_mul(k) == G::spec_gen_mul(a * k)
    &&& forall|a: int, b: int|
        #![trigger G::spec_gen_mul(a), G::spec_gen_mul(b)]
        G::spec_gen_mul(a) == G::spec_gen_mul(b) <==> a % q == b % q
    &&& forall|e: G| #[trigger] e.wf() ==> exists|x: int| G::spec_gen_mul(x) == e
}

/// Of two distinct opposite elements `a * G` and `-a * G`, exactly one is
/// the representative of their class `{P, -P}`.
pub open spec fn negation_map_law<G: KangarooGroup>() -> bool {
    forall|a: int|
        #![trigger G::spec_gen_mul(a), G::spec_gen_mul(-a)]
        G::spec_gen_mul(a) != G::spec_gen_mul(-a) ==> G::spec_gen_mul(
            a,
        ).spec_is_negation_map_representative() != G::spec_gen_mul(
            -a,
        ).spec_is_negation_map_representative()
}

/// `scalar * G` as the generic helpers compute it: from `|scalar|`, negated
/// for a negative scalar.
pub open spec fn signed_gen_mul<G: KangarooGroup>(scalar: int) -> G {
    if scalar < 0 {
        G::spec_gen_mul(-scalar).spec_neg()
    } else {
        G::spec_gen_mul(scalar)
    }
}

/// `scalar * g` as the generic helpers compute it.
pub open spec fn signed_scalar_mul<G: KangarooGroup>(g: G, scalar: int) -> G {
    if scalar < 0 {
        g.spec_neg().spec_scalar_mul((-scalar) as nat)
    } else {
        g.spec_scalar_mul(scalar as nat)
    }
}

/// Under the group laws, multiplying the generator by a signed scalar with
/// the generic helper gives the same element as the generator helper:
/// `scalar_mul_i64(G, k) == generator_scalar_mul_i64(k)`.
pub proof fn lemma_generator_scalar_mul_agrees<G: KangarooGroup>(k: int)
    requires
        group_laws::<G>(),
    ensures
        signed_scalar_mul(G::spec_generator(), k) == signed_gen_mul::<G>(k),
{
    if k < 0 {
        assert(G::spec_gen_mul(1).spec_neg() == G::spec_gen_mul(-1));
        assert(G::spec_gen_mul(-1).spec_scalar_mul((-k) as nat) == G::spec_gen_mul(-1 * (-k)));
        assert(G::spec_gen_mul(-k).spec_neg() == G::spec_gen_mul(-(-k)));
    } else {
        assert(G::spec_gen_mul(1).spec_scalar_mul(k as nat) == G::spec_gen_mul(1 * k));
    }
}

/// Under the group laws, the signed helper is the homomorphism itself.
pub proof fn lemma_signed_gen_mul<G: KangarooGroup>(scalar: int)
    requires
        group_laws::<G>(),
    ensures
        signed_gen_mul::<G>(scalar) == G::spec_gen_mul(scalar),
{
    if scalar < 0 {
        assert(G::spec_gen_mul(-scalar).spec_neg() == G::spec_gen_mul(-(-scalar)));
        assert(-(-scalar) == scalar);
    }
}

/// `scalar * g` for `|scalar|` below the group order.
pub fn scalar_mul_i64<G: KangarooGroup>(g: G, scalar: i64) -> (r: G)
    requires
        abs_int(scalar as int) < G::spec_order(),
    ensures
        r == signed_scalar_mul(g, scalar as int),
{
    let s = unsigned_abs(scalar);
    if scalar < 0 {
        g.group_neg().scalar_mul_u64(s)
    } else {
        g.scalar_mul_u64(s)
    }
}

/// `scalar * G` for `|scalar|` below the group order.
pub fn generator_scalar_mul_i64<G: KangarooGroup>(scalar: i64) -> (r: G)
    requires
        abs_int(scalar as int) < G::spec_order(),
    ensures
        r == signed_gen_mul::<G>(scalar as int),
        group_laws::<G>() ==> r == G::spec_gen_mul(scalar as int),
{
    let s = unsigned_abs(scalar);
    proof {
        if group_laws::<G>() {
            lemma_signed_gen_mul::<G>(scalar as int);
        }
    }
    if scalar < 0 {
        G::mul_by_generator_u64(s).group_neg()
    } else {
        G::mul_by_generator_u64(s)
    }
}

} // verus!
