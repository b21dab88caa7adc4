//! Gaudry-Schost on classes `{P, -P}` with walks: two tame walks (odd and
//! even distances) from `G`-multiples near the origin and four wild walks
//! (even distances) from the target share one table of distinguished
//! points. The real-valued tuning (`alpha`, `c`) enters as the integers it
//! determines: the jump bound, the guard interval and the tame start width.
use std::collections::HashMap;
use std::ops::ControlFlow;
use vstd::prelude::*;

use crate::dlp::method::gaudry_schost::params::{
    anchored, entry_from, map_bounded, met, walk_distance_ok, walk_key, collision_value,
    dp_extends, Params, Parity, Type, Walk, MAX_WALK_DISTANCE,
};
use crate::dlp::method::gaudry_schost::sota_v2::{lemma_settle, lemma_wild_meets_wild, SotaV2};
use crate::dlp::{
    has_log_in, is_log_in, lemma_exact_near, half_toward_zero, lemma_add_congruence, lemma_congruent, lemma_neg_congruence, lemma_same_key,
    lemma_shift, lemma_unshift, order_ok, pm, solves_interval, some_dlog, interval_ok,
    Solution,
};
use crate::group::{generator_scalar_mul_i64, group_laws, KangarooGroup};
use rand::rngs::Xoshiro256PlusPlus;

verus! {

broadcast use vstd::std_specs::hash::group_hash_axioms;

/// The entries of the shared table: tame entries from walks anchored at the
/// identity, wild entries with even distances from walks anchored at
/// `target`, all within the range of the walks.
pub open spec fn table_ok<G: KangarooGroup>(m: Map<u128, (Type, i64)>, target: G) -> bool {
    &&& map_bounded(m)
    &&& forall|k: u128| #[trigger]
        m.contains_key(k) ==> (m[k].0 == Type::TAME ==> walk_key(G::spec_identity(), m[k].1 as int, k))
            && (m[k].0 == Type::WILD ==> walk_key(target, m[k].1 as int, k) && m[k].1 % 2 == 0)
}

/// The walks of a run: tame walks from the identity, wild walks with even
/// distances from `target`.
pub open spec fn walk_role<G: KangarooGroup>(w: Walk<G>, target: G) -> bool {
    &&& w.inv()
    &&& w.spec_typ() == Type::TAME ==> w.spec_anchor() == G::spec_identity()
    &&& w.spec_typ() == Type::WILD ==> w.spec_anchor() == target && w.spec_parity()
        == Parity::EVEN
}

/// A walk in its role keeps the table consistent.
proof fn lemma_table_kept<G: KangarooGroup>(
    old: Map<u128, (Type, i64)>,
    new: Map<u128, (Type, i64)>,
    w: Walk<G>,
    target: G,
)
    requires
        table_ok(old, target),
        map_bounded(new),
        walk_role(w, target),
        dp_extends(old, new, w.spec_typ(), w.spec_anchor(), w.spec_parity()),
    ensures
        table_ok(new, target),
{
    assert forall|k: u128| #[trigger]
        new.contains_key(k) implies (new[k].0 == Type::TAME ==> walk_key(
        G::spec_identity(),
        new[k].1 as int,
        k,
    )) && (new[k].0 == Type::WILD ==> walk_key(target, new[k].1 as int, k) && new[k].1 % 2
        == 0) by {
        if !(old.contains_key(k) && new[k] == old[k]) {
            assert(entry_from(w.spec_typ(), w.spec_anchor(), w.spec_parity(), new[k], k));
        }
    }
}

/// Under the group laws, a point on a walk from the identity is `d * G`.
proof fn lemma_tame_key<G: KangarooGroup>(d: int, k: u128)
    requires
        group_laws::<G>(),
        walk_key(G::spec_identity(), d, k),
    ensures
        G::spec_gen_mul(d).spec_key() == k,
{
    let q = G::spec_order();
    let id = G::spec_identity();
    assert(G::spec_gen_mul(0) == id);
    let a = some_dlog(id);
    assert(G::spec_gen_mul(a) == id);
    assert(a % q == 0int % q);
    vstd::arithmetic::div_mod::lemma_small_mod(0, q as nat);
    lemma_add_congruence(a, 0, d, q);
    lemma_neg_congruence(a, 0, q);
    lemma_add_congruence(-a, 0, d, q);
    assert(0 + d == d && -0 == 0);
    lemma_congruent::<G>(a + d, d);
    lemma_congruent::<G>(-a + d, d);
}

/// A walk in its role that met an entry of a consistent table learns
/// `+-x` for the logarithm `x` of `target`, with the returned sign.
proof fn lemma_met_gives_log<G: KangarooGroup>(
    m: Map<u128, (Type, i64)>,
    w: Walk<G>,
    target: G,
    v: int,
) -> (positive: bool)
    requires
        table_ok(m, target),
        walk_role(w, target),
        met(m, w.spec_typ(), w.spec_anchor(), w.spec_parity(), v),
        order_ok::<G>(),
    ensures
        anchored(target) ==> pm(positive, some_dlog(target)) % G::spec_order() == v
            % G::spec_order(),
        -0x2000_0000_0000_0000 <= v <= 0x2000_0000_0000_0000,
{
    let (k, d) = choose|k: u128, d: int|
        #![trigger m[k], walk_key(w.spec_anchor(), d, k)]
        m.contains_key(k) && walk_key(w.spec_anchor(), d, k) && walk_distance_ok(d) && parity_ok_of(
            w,
            d,
        ) && collision_value(w.spec_typ(), d, m[k]) == Some(v);
    let e = m[k];
    assert(walk_distance_ok(e.1 as int));
    let x0 = some_dlog(target);
    let q = G::spec_order();
    if !anchored(target) {
        return true;
    }
    assert(group_laws::<G>());
    if w.spec_typ() == Type::TAME {
        // the walk is at d * G, the entry is wild
        lemma_tame_key::<G>(d, k);
        assert(e.0 == Type::WILD);
        assert(v == d - e.1);
        let positive = G::spec_gen_mul(x0 + e.1).spec_key() == k;
        if positive {
            lemma_same_key::<G>(d, x0 + e.1);
        } else {
            lemma_same_key::<G>(d, -x0 + e.1);
        }
        lemma_add_congruence(d, pm(positive, x0) + e.1, -e.1, q);
        assert(pm(positive, x0) + e.1 + -e.1 == pm(positive, x0));
        positive
    } else {
        assert(w.spec_anchor() == target);
        let positive = G::spec_gen_mul(x0 + d).spec_key() == k;
        assert(G::spec_gen_mul(pm(positive, x0) + d).spec_key() == k);
        if e.0 == Type::TAME {
            lemma_tame_key::<G>(e.1 as int, k);
            assert(v == e.1 - d);
            lemma_same_key::<G>(pm(positive, x0) + d, e.1 as int);
            lemma_add_congruence(pm(positive, x0) + d, e.1 as int, -d, q);
            assert(pm(positive, x0) + d + -d == pm(positive, x0));
            positive
        } else {
            assert(e.0 == Type::WILD);
            assert(d != e.1 && d != -e.1);
            assert(v == half_toward_zero(d - e.1));
            assert(d % 2 == 0);
            let other = G::spec_gen_mul(x0 + e.1).spec_key() == k;
            assert(G::spec_gen_mul(pm(other, x0) + e.1).spec_key() == k);
            lemma_same_key::<G>(pm(positive, x0) + d, pm(other, x0) + e.1);
            lemma_wild_meets_wild(x0, positive, other, d, e.1 as int, q);
            let h = (e.1 - d) / 2;
            assert(v == -h);
            lemma_neg_congruence(pm(positive, x0), h, q);
            assert(-pm(positive, x0) == pm(!positive, x0));
            !positive
        }
    }
}

/// The parity of the walk's distances holds for `d`.
pub open spec fn parity_ok_of<G: KangarooGroup>(w: Walk<G>, d: int) -> bool {
    crate::dlp::method::gaudry_schost::params::parity_ok(w.spec_parity(), d)
}

/// The logarithm of `target` up to sign: `v == +-x` for some sign.
pub open spec fn log_up_to_sign<G: KangarooGroup>(target: G, v: int) -> bool {
    anchored(target) ==> some_dlog(target) % G::spec_order() == v % G::spec_order() || (-some_dlog(
        target,
    )) % G::spec_order() == v % G::spec_order()
}

/// One round of one walk, with the operation count carried along: the
/// count grows by the moves the walk made in the round.
fn walk_round<G: KangarooGroup>(
    walk: &mut Walk<G>,
    dp_map: &mut HashMap<u128, (Type, i64)>,
    group_ops: u64,
    Ghost(target): Ghost<G>,
    rng: &mut Xoshiro256PlusPlus,
) -> (r: Option<ControlFlow<(i64, u64), u64>>)
    requires
        walk_role(*old(walk), target),
        table_ok(old(dp_map)@, target),
        group_ops <= u64::MAX - 6,
        order_ok::<G>(),
    ensures
        walk_role(*final(walk), target),
        table_ok(final(dp_map)@, target),
        old(walk).has_room() ==> r is Some,
        r matches Some(ControlFlow::Continue(total)) ==> group_ops < total <= group_ops + 6
            && total == group_ops + final(walk).spec_moves() - old(walk).spec_moves(),
        r matches Some(ControlFlow::Break((v, total))) ==> {
            &&& group_ops < total <= group_ops + 6
            &&& total == group_ops + final(walk).spec_moves() - old(walk).spec_moves()
            &&& -0x2000_0000_0000_0000 <= v <= 0x2000_0000_0000_0000
            &&& log_up_to_sign(target, v as int)
        },
{
    let ghost before = dp_map@;
    let ghost w0 = *walk;
    let stepped = walk.walk(dp_map, rng);
    proof {
        lemma_table_kept(before, dp_map@, w0, target);
        assert(walk_role(*walk, target));
    }
    match stepped? {
        ControlFlow::Break((dlog, ops)) => {
            proof {
                let positive = lemma_met_gives_log(dp_map@, w0, target, dlog as int);
                assert(anchored(target) ==> pm(positive, some_dlog(target)) % G::spec_order() == (dlog as int)
                    % G::spec_order());
                assert(log_up_to_sign(target, dlog as int));
            }
            Some(ControlFlow::Break((dlog, group_ops + ops)))
        },
        ControlFlow::Continue(ops) => Some(ControlFlow::Continue(group_ops + ops)),
    }
}

/// The six walks of a run: two tame walks from the identity (odd and even
/// distances) and four wild walks from the target.
pub struct Walks<G: KangarooGroup> {
    pub t1: Walk<G>,
    pub t2: Walk<G>,
    pub w1: Walk<G>,
    pub w2: Walk<G>,
    pub w3: Walk<G>,
    pub w4: Walk<G>,
}

impl<G: KangarooGroup> Walks<G> {
    /// Each walk plays its role for `target`.
    pub open spec fn roles(&self, target: G) -> bool {
        &&& walk_role(self.t1, target)
        &&& walk_role(self.t2, target)
        &&& walk_role(self.w1, target)
        &&& walk_role(self.w2, target)
        &&& walk_role(self.w3, target)
        &&& walk_role(self.w4, target)
    }

    /// The moves of the six walks together, tame and wild: each one group
    /// operation.
    pub open spec fn moves(&self) -> nat {
        self.t1.spec_moves() + self.t2.spec_moves() + self.w1.spec_moves() + self.w2.spec_moves()
            + self.w3.spec_moves() + self.w4.spec_moves()
    }
}

/// Starts the six walks for `target` on `[-N/2, N/2)`: tame walks within
/// `tame_bound` of the identity, wild walks within `wild_bound` of
/// `target`, none of them having moved.
fn start_walks<G: KangarooGroup>(
    target: G,
    params: Params<G>,
    tame_bound: i64,
    wild_bound: i64,
    rng: &mut Xoshiro256PlusPlus,
) -> (walks: Walks<G>)
    requires
        params.wf(),
        0 < tame_bound <= MAX_WALK_DISTANCE,
        0 < wild_bound <= MAX_WALK_DISTANCE,
        order_ok::<G>(),
    ensures
        walks.roles(target),
        walks.moves() == 0,
{
    let identity = G::identity();
    let t1 = Walk::new(params.duplicate(), Type::TAME, Parity::ODD, identity, tame_bound, rng);
    let t2 = Walk::new(params.duplicate(), Type::TAME, Parity::EVEN, identity, tame_bound, rng);
    let w1 = Walk::new(params.duplicate(), Type::WILD, Parity::EVEN, target, wild_bound, rng);
    let w2 = Walk::new(params.duplicate(), Type::WILD, Parity::EVEN, target, wild_bound, rng);
    let w3 = Walk::new(params.duplicate(), Type::WILD, Parity::EVEN, target, wild_bound, rng);
    let w4 = Walk::new(params.duplicate(), Type::WILD, Parity::EVEN, target, wild_bound, rng);
    Walks { t1, t2, w1, w2, w3, w4 }
}

/// Runs the six walks in turn until one of them meets an entry usefully:
/// `(v, ops)` with `v` a logarithm of `target` up to sign and `ops` the
/// moves that all six walks, tame and wild, made in the run. `None` when a
/// distance or the operation counter would leave its range.
fn run_walks<G: KangarooGroup>(
    target: G,
    walks: &mut Walks<G>,
    rng: &mut Xoshiro256PlusPlus,
) -> (r: Option<(i64, u64)>)
    requires
        old(walks).roles(target),
        order_ok::<G>(),
    ensures
        r matches Some(res) ==> -0x2000_0000_0000_0000 <= res.0 <= 0x2000_0000_0000_0000
            && log_up_to_sign(target, res.0 as int),
        r matches Some(res) ==> res.1 == final(walks).moves() - old(walks).moves() && 1 <= res.1,
{
    let mut group_ops: u64 = 0;
    let mut dp_map: HashMap<u128, (Type, i64)> = HashMap::new();
    let ghost moves0 = walks.moves();
    loop
        invariant
            walks.roles(target),
            table_ok(dp_map@, target),
            order_ok::<G>(),
            moves0 == old(walks).moves(),
            group_ops == walks.moves() - moves0,
        decreases u64::MAX - group_ops,
    {
        if group_ops > u64::MAX - 36 {
            return None;
        }
        match walk_round(&mut walks.t1, &mut dp_map, group_ops, Ghost(target), rng)? {
            ControlFlow::Break(found) => {
                return Some(found);
            },
            ControlFlow::Continue(total) => {
                group_ops = total;
            },
        }
        match walk_round(&mut walks.t2, &mut dp_map, group_ops, Ghost(target), rng)? {
            ControlFlow::Break(found) => {
                return Some(found);
            },
            ControlFlow::Continue(total) => {
                group_ops = total;
            },
        }
        match walk_round(&mut walks.w1, &mut dp_map, group_ops, Ghost(target), rng)? {
            ControlFlow::Break(found) => {
                return Some(found);
            },
            ControlFlow::Continue(total) => {
                group_ops = total;
            },
        }
        match walk_round(&mut walks.w2, &mut dp_map, group_ops, Ghost(target), rng)? {
            ControlFlow::Break(found) => {
                return Some(found);
            },
            ControlFlow::Continue(total) => {
                group_ops = total;
            },
        }
        match walk_round(&mut walks.w3, &mut dp_map, group_ops, Ghost(target), rng)? {
            ControlFlow::Break(found) => {
                return Some(found);
            },
            ControlFlow::Continue(total) => {
                group_ops = total;
            },
        }
        match walk_round(&mut walks.w4, &mut dp_map, group_ops, Ghost(target), rng)? {
            ControlFlow::Break(found) => {
                return Some(found);
            },
            ControlFlow::Continue(total) => {
                group_ops = total;
            },
        }
    }
}

/// The sota-v2 walks on `[l, h)` with the integer parameters of a run:
/// jumps below `max_absolute_jump`, start points at most `tame_width -
/// guard_interval` (tame) and `(h - l) / 2 - guard_interval` (wild) from the
/// origin. `Some` only with a logarithm of `element` (modulo the order).
/// `None` when the parameters cannot be drawn or a distance or counter would
/// leave its range.
pub fn solve_with_bounds<G: KangarooGroup>(
    element: G,
    l: i64,
    h: i64,
    max_absolute_jump: i64,
    guard_interval: i64,
    tame_width: i64,
    buckets_bits: u32,
    dp_bits: u32,
    rng: &mut Xoshiro256PlusPlus,
) -> (r: Option<Solution>)
    requires
        interval_ok(l as int, h as int),
        order_ok::<G>(),
        3 <= max_absolute_jump <= 0x2000_0000_0000_0000,
        0 <= guard_interval,
        0 < tame_width - guard_interval <= MAX_WALK_DISTANCE,
        0 < (h - l) / 2 - guard_interval,
        0 < buckets_bits < 32,
        0 < dp_bits < 60,
    ensures
        r matches Some(s) ==> solves_interval(element, l as int, h as int, s.spec_discrete_log() as int),
        has_log_in(element, l as int, h as int) ==> (r matches Some(s) ==> is_log_in(
            element,
            l as int,
            h as int,
            s.spec_discrete_log() as int,
        )),
        r matches Some(s) ==> 1 <= s.spec_group_ops(),
{
    let n = h - l;
    let n_half = n / 2;
    let shift = l + n_half;
    let shifted = element.group_sub(&generator_scalar_mul_i64::<G>(shift));
    let params = Params::new(n, max_absolute_jump, guard_interval, buckets_bits, dp_bits, rng)?;
    let tame_bound = tame_width - guard_interval;
    let wild_bound = n_half - guard_interval;
    let mut walks = start_walks(shifted, params, tame_bound, wild_bound, rng);
    let (dlog, ops) = run_walks(shifted, &mut walks, rng)?;
    let settled = SotaV2::settle_sign(&shifted, dlog);
    let discrete_log = settled.checked_add(shift)?;
    proof {
        let positive = some_dlog(shifted) % G::spec_order() == (dlog as int) % G::spec_order();
        lemma_settle::<G>(shifted, some_dlog(shifted), positive, dlog as int);
        assert forall|x: int|
            #![trigger G::spec_gen_mul(x)]
            group_laws::<G>() && G::spec_gen_mul(x) == element && l <= x < h implies (
            discrete_log as int) % G::spec_order() == x % G::spec_order() by {
            lemma_shift::<G>(x, shift as int);
            lemma_unshift(settled as int, x, shift as int, G::spec_order());
        }
        if has_log_in(element, l as int, h as int) {
            lemma_exact_near(element, l as int, h as int, shift as int, discrete_log as int);
        }
    }
    Some(Solution::new(discrete_log, ops))
}

} // verus!
