//! Interval discrete-logarithm solvers: given `Q = x * G` with `l <= x < h`,
//! recover `x`, counting the group operations spent.
use vstd::arithmetic::div_mod::*;
use vstd::prelude::*;

use crate::group::{group_laws, negation_map_law, KangarooGroup};
use rand::rngs::Xoshiro256PlusPlus;

pub mod jump;
pub mod method;

verus! {

/// A recovered discrete logarithm and the number of group operations spent.
pub struct Solution {
    discrete_log: i64,
    group_ops: u64,
}

impl Solution {
    /// The solution `discrete_log` found after `group_ops` operations.
    pub fn new(discrete_log: i64, group_ops: u64) -> (r: Self)
        ensures
            r.spec_discrete_log() == discrete_log,
            r.spec_group_ops() == group_ops,
    {
        Self { discrete_log, group_ops }
    }

    /// The recovered discrete logarithm.
    pub closed spec fn spec_discrete_log(&self) -> i64 {
        self.discrete_log
    }

    /// The number of group operations spent.
    pub closed spec fn spec_group_ops(&self) -> u64 {
        self.group_ops
    }

    /// The recovered discrete logarithm.
    pub fn discrete_log(&self) -> (r: i64)
        ensures
            r == self.spec_discrete_log(),
    {
        self.discrete_log
    }

    /// The number of group operations spent.
    pub fn group_ops(&self) -> (r: u64)
        ensures
            r == self.spec_group_ops(),
    {
        self.group_ops
    }
}

/// The intervals the solvers accept: nonempty, at most `2^61` wide and inside
/// `[-2^62, 2^62]`, so that every distance the algorithms form stays far from
/// the `i64` limits and below the group order.
pub open spec fn interval_ok(l: int, h: int) -> bool {
    &&& -0x4000_0000_0000_0000 <= l < h <= 0x4000_0000_0000_0000
    &&& h - l <= 0x2000_0000_0000_0000
}

/// The group is large enough for every distance in an accepted interval:
/// its order exceeds `1.5 * 2^62` (both toy groups have orders near `2^63`).
pub open spec fn order_ok<G: KangarooGroup>() -> bool {
    G::spec_order() > 0x6000_0000_0000_0000
}

/// `r` answers the interval problem `element = x * G`, `lo <= x < hi`: under
/// the group laws, `r` is congruent to every such `x` modulo the group order.
pub open spec fn solves_interval<G: KangarooGroup>(element: G, lo: int, hi: int, r: int) -> bool {
    forall|x: int|
        #![trigger G::spec_gen_mul(x)]
        group_laws::<G>() && G::spec_gen_mul(x) == element && lo <= x < hi ==> r % G::spec_order()
            == x % G::spec_order()
}

/// `r` is a discrete logarithm of `element` modulo the group order: under the
/// group laws, `r` is congruent to every `x` with `x * G == element`.
pub open spec fn solves<G: KangarooGroup>(element: G, r: int) -> bool {
    forall|x: int|
        #![trigger G::spec_gen_mul(x)]
        group_laws::<G>() && G::spec_gen_mul(x) == element ==> r % G::spec_order() == x
            % G::spec_order()
}

/// Under the group laws, `element` is `x * G` for some `x` in `[lo, hi)`.
pub open spec fn has_log_in<G: KangarooGroup>(element: G, lo: int, hi: int) -> bool {
    group_laws::<G>() && exists|x: int| lo <= x < hi && #[trigger] G::spec_gen_mul(x) == element
}

/// `r` is the logarithm of `element` in `[lo, hi)`.
pub open spec fn is_log_in<G: KangarooGroup>(element: G, lo: int, hi: int, r: int) -> bool {
    lo <= r < hi && G::spec_gen_mul(r) == element
}

/// A logarithm of the target in the interval gives one of the shifted target
/// `element - s * G` in the shifted interval.
pub proof fn lemma_has_log_shift<G: KangarooGroup>(element: G, lo: int, hi: int, s: int)
    requires
        has_log_in(element, lo, hi),
    ensures
        has_log_in(element.spec_add(G::spec_gen_mul(s).spec_neg()), lo - s, hi - s),
{
    let x = choose|x: int| lo <= x < hi && #[trigger] G::spec_gen_mul(x) == element;
    lemma_shift::<G>(x, s);
    assert(lo - s <= x - s < hi - s);
    assert(G::spec_gen_mul(x - s) == element.spec_add(G::spec_gen_mul(s).spec_neg()));
}

/// The logarithm of the shifted target, shifted back, is a logarithm of the
/// target.
pub proof fn lemma_is_log_unshift<G: KangarooGroup>(element: G, lo: int, hi: int, s: int, d: int)
    requires
        group_laws::<G>(),
        is_log_in(element.spec_add(G::spec_gen_mul(s).spec_neg()), lo - s, hi - s, d),
        has_log_in(element, lo, hi),
    ensures
        is_log_in(element, lo, hi, d + s),
{
    let x = choose|x: int| lo <= x < hi && #[trigger] G::spec_gen_mul(x) == element;
    lemma_shift::<G>(x, s);
    assert(G::spec_gen_mul(d) == G::spec_gen_mul(x - s));
    lemma_unshift(d, x, s, G::spec_order());
    assert((d + s) % G::spec_order() == x % G::spec_order());
    assert(G::spec_gen_mul(d + s) == G::spec_gen_mul(x));
}

/// How far the walks of the randomised solvers may travel: beyond it an
/// answer could no longer be told from another one modulo the group order.
pub const MAX_DISTANCE: i64 = 0x4000_0000_0000_0000;

/// An answer within `2^62` of a point `shift` of the interval that is
/// congruent to the logarithm in the interval is that logarithm.
pub proof fn lemma_exact_near<G: KangarooGroup>(element: G, l: int, h: int, shift: int, r: int)
    requires
        has_log_in(element, l, h),
        interval_ok(l, h),
        order_ok::<G>(),
        l <= shift <= h,
        -MAX_DISTANCE <= r - shift <= MAX_DISTANCE,
        solves_interval(element, l, h, r),
    ensures
        is_log_in(element, l, h, r),
{
    let x = choose|x: int| l <= x < h && #[trigger] G::spec_gen_mul(x) == element;
    assert(r % G::spec_order() == x % G::spec_order());
    lemma_exact(r, x, G::spec_order());
}

/// Two logarithms in an interval narrower than the group order are equal.
pub proof fn lemma_log_unique<G: KangarooGroup>(element: G, lo: int, hi: int, a: int, b: int)
    requires
        group_laws::<G>(),
        hi - lo <= G::spec_order(),
        is_log_in(element, lo, hi, a),
        is_log_in(element, lo, hi, b),
    ensures
        a == b,
{
    assert(G::spec_gen_mul(a) == G::spec_gen_mul(b));
    lemma_exact(a, b, G::spec_order());
}

/// Every key `k` of the table `t` is the key of `(offset + t[k]) * G`: the
/// table maps points of a walk to their distances.
pub open spec fn keys_at<G: KangarooGroup>(t: Map<u128, i64>, offset: int) -> bool {
    forall|k: u128| #[trigger]
        t.contains_key(k) ==> G::spec_gen_mul(offset + t[k]).spec_key() == k
}

/// Inserting a point of the walk keeps the table consistent.
pub proof fn lemma_keys_at_insert<G: KangarooGroup>(t: Map<u128, i64>, offset: int, d: i64)
    requires
        keys_at::<G>(t, offset),
    ensures
        keys_at::<G>(t.insert(G::spec_gen_mul(offset + d).spec_key(), d), offset),
{
}

/// A solution for every `x` is in particular one for the `x` of an interval.
pub proof fn lemma_solves_interval<G: KangarooGroup>(element: G, lo: int, hi: int, r: int)
    requires
        solves(element, r),
    ensures
        solves_interval(element, lo, hi, r),
{
}

/// The chosen logarithm of `element`, if it has one.
pub open spec fn some_dlog<G: KangarooGroup>(element: G) -> int {
    choose|x: int| G::spec_gen_mul(x) == element
}

/// If `r` is congruent to the chosen logarithm of `element` whenever that is
/// one, then `r` solves `element`.
pub proof fn lemma_solves_from_witness<G: KangarooGroup>(element: G, r: int)
    requires
        group_laws::<G>() && G::spec_gen_mul(some_dlog(element)) == element ==> r
            % G::spec_order() == some_dlog(element) % G::spec_order(),
    ensures
        solves(element, r),
{
    assert forall|x: int|
        #![trigger G::spec_gen_mul(x)]
        group_laws::<G>() && G::spec_gen_mul(x) == element implies r % G::spec_order() == x
        % G::spec_order() by {
        let x0 = some_dlog(element);
        assert(G::spec_gen_mul(x0) == element);
        assert(G::spec_gen_mul(x) == G::spec_gen_mul(x0));
    }
}

/// Elements `a * G` and `b * G` with the same key have congruent logarithms.
pub proof fn lemma_same_key<G: KangarooGroup>(a: int, b: int)
    requires
        group_laws::<G>(),
        G::spec_gen_mul(a).spec_key() == G::spec_gen_mul(b).spec_key(),
    ensures
        a % G::spec_order() == b % G::spec_order(),
{
    G::lemma_key_injective(G::spec_gen_mul(a), G::spec_gen_mul(b));
}

/// Congruent logarithms give the same element.
pub proof fn lemma_congruent<G: KangarooGroup>(a: int, b: int)
    requires
        group_laws::<G>(),
        a % G::spec_order() == b % G::spec_order(),
    ensures
        G::spec_gen_mul(a) == G::spec_gen_mul(b),
{
}

/// Shifting the target: `x * G - s * G == (x - s) * G`.
pub proof fn lemma_shift<G: KangarooGroup>(x: int, s: int)
    requires
        group_laws::<G>(),
    ensures
        G::spec_gen_mul(x).spec_add(G::spec_gen_mul(s).spec_neg()) == G::spec_gen_mul(x - s),
{
    assert(G::spec_gen_mul(s).spec_neg() == G::spec_gen_mul(-s));
    assert(G::spec_gen_mul(x).spec_add(G::spec_gen_mul(-s)) == G::spec_gen_mul(x + -s));
}

/// A congruence solved for a shifted target carries over to the unshifted one.
pub proof fn lemma_unshift(r: int, x: int, s: int, q: int)
    requires
        q > 0,
        r % q == (x - s) % q,
    ensures
        (r + s) % q == x % q,
{
    lemma_add_mod_noop(r, s, q);
    lemma_add_mod_noop(x - s, s, q);
}

/// Adding the same integer to both sides keeps a congruence.
pub proof fn lemma_add_congruence(a: int, b: int, c: int, q: int)
    requires
        q > 0,
        a % q == b % q,
    ensures
        (a + c) % q == (b + c) % q,
{
    lemma_add_mod_noop(a, c, q);
    lemma_add_mod_noop(b, c, q);
}

/// Negating both sides keeps a congruence.
pub proof fn lemma_neg_congruence(a: int, b: int, q: int)
    requires
        q > 0,
        a % q == b % q,
    ensures
        (-a) % q == (-b) % q,
{
    lemma_sub_mod_noop(0, a, q);
    lemma_sub_mod_noop(0, b, q);
}

/// The logarithm of a point reached `c != 0` steps from `Q` (for `c > 0`) or
/// from `-Q` (for `c < 0`): `x - c` or `-x - c`.
pub open spec fn signed_position(x: int, c: int) -> int {
    if c > 0 {
        x - c
    } else {
        -x - c
    }
}

/// Every key `k` of `t` is the key of the point `signed_position(x, t[k])`
/// (a walk from `Q` for positive distances, from `-Q` for negative ones).
pub open spec fn signed_keys_at<G: KangarooGroup>(t: Map<u128, i64>, x: int) -> bool {
    forall|k: u128| #[trigger]
        t.contains_key(k) ==> t[k] != 0 && G::spec_gen_mul(signed_position(x, t[k] as int)).spec_key()
            == k
}

/// From `d == signed_position(x, c)` modulo `q`, `x == |c| + sign(c) * d`.
pub proof fn lemma_solve_signed(d: int, c: int, x: int, q: int)
    requires
        q > 0,
        c != 0,
        d % q == signed_position(x, c) % q,
    ensures
        (if c > 0 { c + d } else { -c - d }) % q == x % q,
{
    if c > 0 {
        lemma_unshift(d, x, c, q);
    } else {
        lemma_neg_congruence(d, -x - c, q);
        assert(-(-x - c) == x - (-c));
        lemma_unshift(-d, x, -c, q);
    }
}

/// `x` or `-x`.
pub open spec fn pm(positive: bool, x: int) -> int {
    if positive {
        x
    } else {
        -x
    }
}

/// `v / 2` rounded toward zero, as `i64` division does.
pub open spec fn half_toward_zero(v: int) -> int {
    if v >= 0 {
        v / 2
    } else {
        -((-v) / 2)
    }
}

/// Congruent integers closer than `q` are equal.
pub proof fn lemma_exact(a: int, b: int, q: int)
    requires
        q > 0,
        a % q == b % q,
        -q < a - b < q,
    ensures
        a == b,
{
    lemma_fundamental_div_mod(a, q);
    lemma_fundamental_div_mod(b, q);
    let k = a / q - b / q;
    assert(a - b == q * k) by {
        vstd::arithmetic::mul::lemma_mul_is_distributive_sub(q, a / q, b / q);
    }
    if k >= 1 {
        vstd::arithmetic::mul::lemma_mul_inequality(1, k, q);
        vstd::arithmetic::mul::lemma_mul_is_commutative(q, k);
    } else if k <= -1 {
        vstd::arithmetic::mul::lemma_mul_inequality(1, -k, q);
        vstd::arithmetic::mul::lemma_mul_is_commutative(q, -k);
        vstd::arithmetic::mul::lemma_mul_unary_negation(q, k);
    }
}

/// In a group of odd order, `2a == 2b (mod q)` gives `a == b (mod q)`.
pub proof fn lemma_halve(a: int, b: int, q: int)
    requires
        q > 2,
        q % 2 == 1,
        (2 * a) % q == (2 * b) % q,
    ensures
        a % q == b % q,
{
    let d = a - b;
    assert((2 * d) % q == 0) by {
        lemma_sub_mod_noop(2 * a, 2 * b, q);
        lemma_small_mod(0, q as nat);
        assert(2 * a - 2 * b == 2 * d);
    }
    let r = d % q;
    assert((2 * r) % q == 0) by {
        lemma_mul_mod_noop_right(2, d, q);
    }
    lemma_mod_bound(d, q);
    if r != 0 {
        if 2 * r < q {
            lemma_small_mod((2 * r) as nat, q as nat);
        } else {
            lemma_mod_sub_multiples_vanish(2 * r, q);
            lemma_small_mod((2 * r - q) as nat, q as nat);
        }
    }
    assert(r == 0);
    lemma_fundamental_div_mod(d, q);
    assert(a == q * (d / q) + b);
    lemma_mod_multiples_vanish(d / q, b, q);
}

/// A tame point at `tame_distance` equals the wild point from `Q` at
/// `wild1_distance`: `x = tame_distance - wild1_distance`.
pub open spec fn collision_tw1_spec(tame_distance: int, wild1_distance: int) -> int {
    tame_distance - wild1_distance
}

/// A tame point equals the wild point from `-Q`: `x = wild2_distance - tame_distance`.
pub open spec fn collision_tw2_spec(tame_distance: int, wild2_distance: int) -> int {
    wild2_distance - tame_distance
}

/// The two wild points coincide: `x = (wild2_distance - wild1_distance) / 2`.
pub open spec fn collision_w1w2_spec(wild1_distance: int, wild2_distance: int) -> int {
    half_toward_zero(wild2_distance - wild1_distance)
}

/// A tame point `t * G` equals the wild point `(x0 + w1) * G`.
pub proof fn lemma_tame_wild1<G: KangarooGroup>(element: G, x0: int, t: int, w1: int)
    requires
        x0 == some_dlog(element),
        group_laws::<G>() && G::spec_gen_mul(x0) == element ==> G::spec_gen_mul(0 + t).spec_key()
            == G::spec_gen_mul(x0 + w1).spec_key(),
    ensures
        solves(element, collision_tw1_spec(t, w1)),
{
    if group_laws::<G>() && G::spec_gen_mul(x0) == element {
        lemma_same_key::<G>(0 + t, x0 + w1);
        assert(x0 - -w1 == x0 + w1);
        lemma_unshift(t, x0, -w1, G::spec_order());
    }
    lemma_solves_from_witness(element, collision_tw1_spec(t, w1));
}

/// A tame point `t * G` equals the wild point `(-x0 + w2) * G`.
pub proof fn lemma_tame_wild2<G: KangarooGroup>(element: G, x0: int, t: int, w2: int)
    requires
        x0 == some_dlog(element),
        group_laws::<G>() && G::spec_gen_mul(x0) == element ==> G::spec_gen_mul(0 + t).spec_key()
            == G::spec_gen_mul(-x0 + w2).spec_key(),
    ensures
        solves(element, collision_tw2_spec(t, w2)),
{
    if group_laws::<G>() && G::spec_gen_mul(x0) == element {
        let q = G::spec_order();
        lemma_same_key::<G>(0 + t, -x0 + w2);
        lemma_neg_congruence(0 + t, -x0 + w2, q);
        assert(-(-x0 + w2) == x0 - w2);
        lemma_unshift(-t, x0, w2, q);
    }
    lemma_solves_from_witness(element, collision_tw2_spec(t, w2));
}

/// The wild points `(x0 + w1) * G` and `(-x0 + w2) * G` coincide, with even
/// distances: `2 x0 == w2 - w1`, and the group order is odd.
pub proof fn lemma_wild1_wild2<G: KangarooGroup>(element: G, x0: int, w1: int, w2: int)
    requires
        x0 == some_dlog(element),
        w1 % 2 == 0,
        w2 % 2 == 0,
        group_laws::<G>() && G::spec_gen_mul(x0) == element ==> G::spec_gen_mul(x0 + w1).spec_key()
            == G::spec_gen_mul(-x0 + w2).spec_key(),
    ensures
        solves(element, collision_w1w2_spec(w1, w2)),
{
    let k = (w2 - w1) / 2;
    assert(collision_w1w2_spec(w1, w2) == k);
    if group_laws::<G>() && G::spec_gen_mul(x0) == element {
        let q = G::spec_order();
        lemma_same_key::<G>(x0 + w1, -x0 + w2);
        lemma_add_congruence(x0 + w1, -x0 + w2, x0 - w1, q);
        assert(x0 + w1 + (x0 - w1) == 2 * x0);
        assert(-x0 + w2 + (x0 - w1) == 2 * k);
        lemma_halve(x0, k, q);
    }
    lemma_solves_from_witness(element, collision_w1w2_spec(w1, w2));
}

/// An interval solver in the `Q, [l, h)` calling convention.
pub trait DiscreteLogSolver {
    /// The solver's own requirements on the interval and its parameters.
    spec fn accepts(&self, l: int, h: int) -> bool;

    /// Recovers `x` from `element = x * G`, `l <= x < h`. An answer is
    /// congruent to every such `x` modulo the group order, and is `x` itself
    /// when `x` exists (in a group whose negation map picks one of `P` and
    /// `-P`). `None` stands for a run whose counters or distances would
    /// leave their ranges.
    fn solve<G: KangarooGroup>(
        &self,
        element: G,
        l: i64,
        h: i64,
        rng: &mut Xoshiro256PlusPlus,
    ) -> (r: Option<Solution>)
        requires
            interval_ok(l as int, h as int),
            order_ok::<G>(),
            self.accepts(l as int, h as int),
        ensures
            r matches Some(s) ==> solves_interval(element, l as int, h as int, s.spec_discrete_log() as int),
            has_log_in(element, l as int, h as int) && negation_map_law::<G>() ==> (r matches Some(
                s,
            ) ==> is_log_in(element, l as int, h as int, s.spec_discrete_log() as int)),
    ;
}

} // verus!
