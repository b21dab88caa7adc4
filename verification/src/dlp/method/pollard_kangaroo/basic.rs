//! Pollard's kangaroo with one tame walk from `G` and one wild walk from the
//! target, jumps drawn afresh at every step from `[0, round(sqrt(N)))`, and
//! every visited point stored.
use std::collections::HashMap;
use vstd::prelude::*;

use crate::dlp::{
    has_log_in, lemma_exact_near, MAX_DISTANCE,
    collision_tw1_spec, keys_at, lemma_keys_at_insert, lemma_shift, lemma_tame_wild1,
    lemma_unshift, order_ok, solves, some_dlog, DiscreteLogSolver, Solution,
};
use crate::group::{generator_scalar_mul_i64, group_laws, signed_gen_mul, KangarooGroup};
use crate::num::round_sqrt_ratio;
use crate::rng::random_range_i64;
use rand::rngs::Xoshiro256PlusPlus;

verus! {

broadcast use vstd::std_specs::hash::group_hash_axioms;

/// The basic two-kangaroo solver.
#[derive(Default)]
pub struct Basic;

/// The largest jump bound `round(sqrt(N))` for an interval of at most `2^61`.
pub open spec fn basic_jump_bound_ok(m2: int, n: int) -> bool {
    &&& 1 <= m2 <= 0x1_0000_0000
    &&& (2 * m2 - 1) * (2 * m2 - 1) <= 4 * n
    &&& 4 * n < (2 * m2 + 1) * (2 * m2 + 1)
}

/// The state of the two walks between two moves: points and distances of
/// the tame and the wild walk, every point each has visited, the operation
/// count and whose move is next (`0` tame, `1` wild).
pub struct BasicState<G> {
    pub t: G,
    pub td: i64,
    pub w: G,
    pub wd: i64,
    pub tames: Map<u128, i64>,
    pub wilds: Map<u128, i64>,
    pub ops: u64,
    pub turn: u8,
}

/// The outcome of one move: the run ends with an answer (logarithm and
/// operation count), or goes on.
pub enum BasicMove<G> {
    Done(Option<(i64, u64)>),
    Next(BasicState<G>),
}

/// The state before the first move: the tame walk at `G` with distance
/// `1`, the wild walk at the target with distance `0`, nothing visited.
pub open spec fn basic_start<G: KangarooGroup>(element: G) -> BasicState<G> {
    BasicState {
        t: G::spec_generator(),
        td: 1,
        w: element,
        wd: 0,
        tames: Map::empty(),
        wilds: Map::empty(),
        ops: 0,
        turn: 0,
    }
}

/// The answer of a tame point at distance `td` meeting a wild point at
/// distance `wd`, when `td - wd` fits in `i64`.
pub open spec fn basic_answer(td: int, wd: int, ops: u64) -> Option<(i64, u64)> {
    if i64::MIN <= td - wd <= i64::MAX {
        Some(((td - wd) as i64, ops))
    } else {
        None
    }
}

/// One move of the walk whose turn it is, with the drawn jump `j`: it jumps
/// by `j G` (one group operation) and looks its point up among the other
/// walk's points; on a match the run ends, else the point is recorded. The
/// run gives up before a tame move when the counter is within `2` of
/// `u64::MAX`, and when a distance would pass `MAX_DISTANCE`.
pub open spec fn basic_move<G: KangarooGroup>(s: BasicState<G>, j: i64) -> BasicMove<G> {
    let ops = (s.ops + 1) as u64;
    if s.turn == 0 {
        let td = s.td + j;
        let t = s.t.spec_add(signed_gen_mul::<G>(j as int));
        let k = t.spec_key();
        if s.ops > u64::MAX - 2 || td > MAX_DISTANCE {
            BasicMove::Done(None)
        } else if s.wilds.contains_key(k) {
            BasicMove::Done(basic_answer(td, s.wilds[k] as int, ops))
        } else {
            BasicMove::Next(BasicState { t, td: td as i64, tames: s.tames.insert(k, td as i64), ops, turn: 1, ..s })
        }
    } else {
        let wd = s.wd + j;
        let w = s.w.spec_add(signed_gen_mul::<G>(j as int));
        let k = w.spec_key();
        if wd > MAX_DISTANCE {
            BasicMove::Done(None)
        } else if s.tames.contains_key(k) {
            BasicMove::Done(basic_answer(s.tames[k] as int, wd, ops))
        } else {
            BasicMove::Next(BasicState { w, wd: wd as i64, wilds: s.wilds.insert(k, wd as i64), ops, turn: 0, ..s })
        }
    }
}

/// The state after the first `k` moves with the draws `draws`, while none
/// of them ended the run.
pub open spec fn basic_after<G: KangarooGroup>(s0: BasicState<G>, draws: Seq<i64>, k: nat) -> Option<BasicState<G>>
    decreases k,
{
    if k == 0 {
        Some(s0)
    } else {
        match basic_after(s0, draws, (k - 1) as nat) {
            Some(s) => match basic_move(s, draws[k - 1]) {
                BasicMove::Next(s2) => Some(s2),
                BasicMove::Done(_) => None,
            },
            None => None,
        }
    }
}

/// The run from `s0` with the draws `draws` ends at its last draw with `r`.
pub open spec fn basic_ends_with<G: KangarooGroup>(s0: BasicState<G>, draws: Seq<i64>, r: Option<(i64, u64)>) -> bool {
    &&& draws.len() >= 1
    &&& basic_after(s0, draws, (draws.len() - 1) as nat) matches Some(s)
    &&& basic_move(s, draws.last()) == BasicMove::<G>::Done(r)
}

/// The run after `k` moves depends only on the first `k` draws.
pub proof fn lemma_basic_after_prefix<G: KangarooGroup>(s0: BasicState<G>, d: Seq<i64>, j: i64, k: nat)
    requires
        k <= d.len(),
    ensures
        basic_after(s0, d.push(j), k) == basic_after(s0, d, k),
    decreases k,
{
    if k > 0 {
        lemma_basic_after_prefix(s0, d, j, (k - 1) as nat);
        assert(d.push(j)[k - 1] == d[k - 1]);
    }
}

/// A move that ends the run at the next draw `j` gives the run's result.
pub proof fn lemma_basic_witness<G: KangarooGroup>(
    s0: BasicState<G>,
    drawn: Seq<i64>,
    j: i64,
    cur: BasicState<G>,
    r: Option<(i64, u64)>,
)
    requires
        basic_after(s0, drawn, drawn.len()) == Some(cur),
        basic_move(cur, j) == BasicMove::<G>::Done(r),
    ensures
        basic_ends_with(s0, drawn.push(j), r),
{
    lemma_basic_after_prefix(s0, drawn, j, drawn.len());
    assert(drawn.push(j).last() == j);
}

/// A move that goes on at the next draw `j` is the state after it.
pub proof fn lemma_basic_next<G: KangarooGroup>(
    s0: BasicState<G>,
    drawn: Seq<i64>,
    j: i64,
    cur: BasicState<G>,
    next: BasicState<G>,
)
    requires
        basic_after(s0, drawn, drawn.len()) == Some(cur),
        basic_move(cur, j) == BasicMove::<G>::Next(next),
    ensures
        basic_after(s0, drawn.push(j), drawn.push(j).len()) == Some(next),
{
    lemma_basic_after_prefix(s0, drawn, j, drawn.len());
    assert(drawn.push(j)[drawn.len() as int] == j);
}

/// The run on `element` and an interval of width `n`, with draws below
/// the jump bound `round(sqrt(N))`, ends with `v`.
pub open spec fn basic_run_gives<G: KangarooGroup>(element: G, n: int, v: Option<(i64, u64)>) -> bool {
    exists|m: int, draws: Seq<i64>|
        #![trigger basic_jump_bound_ok(m, n), basic_ends_with(basic_start(element), draws, v)]
        basic_jump_bound_ok(m, n) && (forall|i: int| 0 <= i < draws.len() ==> 0 <= #[trigger] draws[i] < m)
            && basic_ends_with(basic_start(element), draws, v)
}

/// From the start, the state after `k` moves that all went on has counted
/// `k` operations, one per jump of either walk; a wild move is next only
/// below the counter's limit.
pub proof fn lemma_basic_after_count<G: KangarooGroup>(element: G, draws: Seq<i64>, k: nat)
    ensures
        basic_after(basic_start(element), draws, k) matches Some(s) ==> s.ops == k && (s.turn == 0
            || (s.turn == 1 && s.ops <= u64::MAX - 1)),
    decreases k,
{
    if k > 0 {
        lemma_basic_after_count(element, draws, (k - 1) as nat);
    }
}

/// The run on `element` and width `n` ends with the answer `v` after
/// exactly `v.1` draws in range: the count is the number of jumps made.
pub open spec fn basic_counted_run<G: KangarooGroup>(element: G, n: int, v: (i64, u64)) -> bool {
    exists|m: int, draws: Seq<i64>|
        #![trigger basic_jump_bound_ok(m, n), basic_ends_with(basic_start(element), draws, Some(v))]
        basic_jump_bound_ok(m, n) && (forall|i: int| 0 <= i < draws.len() ==> 0 <= #[trigger] draws[i] < m)
            && basic_ends_with(basic_start(element), draws, Some(v)) && v.1 == draws.len()
}

/// Every jump counts one group operation, the tame walk's and the wild
/// walk's alike: an answer of the run reports as many operations as both
/// walks made jumps until they met.
pub proof fn lemma_basic_run_count<G: KangarooGroup>(element: G, n: int, v: (i64, u64))
    requires
        basic_run_gives(element, n, Some(v)),
    ensures
        basic_counted_run(element, n, v),
{
    let (m, draws) = choose|m: int, draws: Seq<i64>|
        #![trigger basic_jump_bound_ok(m, n), basic_ends_with(basic_start(element), draws, Some(v))]
        basic_jump_bound_ok(m, n) && (forall|i: int| 0 <= i < draws.len() ==> 0 <= #[trigger] draws[i] < m)
            && basic_ends_with(basic_start(element), draws, Some(v));
    lemma_basic_after_count(element, draws, (draws.len() - 1) as nat);
    assert(v.1 == draws.len());
}

/// The target shifted by the middle of `[l, h)`: `element - (l + (h - l) / 2) G`.
pub open spec fn basic_shifted<G: KangarooGroup>(element: G, l: int, h: int) -> G {
    element.spec_add(signed_gen_mul::<G>(l + (h - l) / 2).spec_neg())
}

/// An answer on `[l, h)` is the run on the shifted target ending with the
/// shifted answer and its count.
pub open spec fn basic_shifted_run<G: KangarooGroup>(element: G, l: int, h: int, r: Option<Solution>) -> bool {
    match r {
        Some(s) => basic_run_gives(
            basic_shifted(element, l, h),
            h - l,
            Some(((s.spec_discrete_log() - (l + (h - l) / 2)) as i64, s.spec_group_ops())),
        ),
        None => true,
    }
}

/// The logarithm and count of a solution, if any.
pub open spec fn basic_result(r: Option<Solution>) -> Option<(i64, u64)> {
    match r {
        Some(s) => Some((s.spec_discrete_log(), s.spec_group_ops())),
        None => None,
    }
}

/// The state made of the walks' current values.
spec fn basic_state_of<G>(
    t: G,
    td: i64,
    w: G,
    wd: i64,
    tames: Map<u128, i64>,
    wilds: Map<u128, i64>,
    ops: u64,
    turn: u8,
) -> BasicState<G> {
    BasicState { t, td, w, wd, tames, wilds, ops, turn }
}

impl Basic {
    fn collision(tame_distance: i64, wild_distance: i64) -> (r: Option<i64>)
        ensures
            r matches Some(v) ==> v == collision_tw1_spec(tame_distance as int, wild_distance as int),
            r is None <==> !(i64::MIN <= tame_distance - wild_distance <= i64::MAX),
    {
        tame_distance.checked_sub(wild_distance)
    }

    /// The jump bound `round(sqrt(N))` of the walks on an interval of width `n`.
    pub fn jump_bound(n: i64) -> (m2: i64)
        requires
            1 <= n <= 0x2000_0000_0000_0000,
        ensures
            basic_jump_bound_ok(m2 as int, n as int),
    {
        let r = round_sqrt_ratio(n as u128, 1);
        assert(r >= 1 && r <= 0x1_0000_0000) by (nonlinear_arith)
            requires
                r > 0 ==> (2 * r - 1) * (2 * r - 1) * 1 <= 4 * n,
                4 * n < (2 * r + 1) * (2 * r + 1) * 1,
                1 <= n <= 0x2000_0000_0000_0000,
        {
            if r == 0 {
                assert(4 * n < 1);
            }
            if r > 0x1_0000_0000 {
                assert((2 * r - 1) * (2 * r - 1) > 0x1_0000_0000 * 0x1_0000_0000);
            }
        }
        r as i64
    }

    /// The walks on `[-N/2, N/2)`: `Some` only with a logarithm of `element`.
    /// `None` when the counter would leave `u64` or a distance would pass
    /// `MAX_DISTANCE`.
    pub fn solve_symmetric<G: KangarooGroup>(
        &self,
        element: G,
        n: i64,
        rng: &mut Xoshiro256PlusPlus,
    ) -> (r: Option<Solution>)
        requires
            1 <= n <= 0x2000_0000_0000_0000,
            order_ok::<G>(),
        ensures
            r matches Some(s) ==> solves(element, s.spec_discrete_log() as int),
            r matches Some(s) ==> -MAX_DISTANCE <= s.spec_discrete_log() <= MAX_DISTANCE,
            basic_run_gives(element, n as int, basic_result(r)),
    {
        let ghost x0 = some_dlog(element);
        let ghost ok = group_laws::<G>() && G::spec_gen_mul(x0) == element;
        let m2 = Self::jump_bound(n);

        let mut group_ops: u64 = 0;
        let mut tame = G::generator();
        let mut tame_distance: i64 = 1;
        let mut wild = element;
        let mut wild_distance: i64 = 0;
        let mut tames: HashMap<u128, i64> = HashMap::new();
        let mut wilds: HashMap<u128, i64> = HashMap::new();
        proof {
            if ok {
                assert(x0 + 0 == x0);
            }
        }
        let ghost s0 = basic_start(element);
        let ghost mut drawn: Seq<i64> = Seq::empty();
        assert(basic_after(s0, drawn, 0) == Some(basic_state_of(tame, tame_distance, wild, wild_distance, tames@, wilds@, group_ops, 0)));

        loop
            invariant
                basic_jump_bound_ok(m2 as int, n as int),
                s0 == basic_start(element),
                drawn.len() == group_ops,
                forall|i: int| 0 <= i < drawn.len() ==> 0 <= #[trigger] drawn[i] < m2,
                basic_after(s0, drawn, drawn.len()) == Some(basic_state_of(tame, tame_distance, wild, wild_distance, tames@, wilds@, group_ops, 0)),
                order_ok::<G>(),
                ok == (group_laws::<G>() && G::spec_gen_mul(x0) == element),
                x0 == some_dlog(element),
                group_laws::<G>() ==> tame == G::spec_gen_mul(tame_distance as int),
                ok ==> wild == G::spec_gen_mul(x0 + wild_distance),
                group_laws::<G>() ==> keys_at::<G>(tames@, 0),
                ok ==> keys_at::<G>(wilds@, x0),
                0 <= tame_distance <= MAX_DISTANCE,
                0 <= wild_distance <= MAX_DISTANCE,
                forall|k: u128| #[trigger] tames@.contains_key(k) ==> 0 <= tames@[k] <= MAX_DISTANCE,
                forall|k: u128| #[trigger] wilds@.contains_key(k) ==> 0 <= wilds@[k] <= MAX_DISTANCE,
            decreases u64::MAX - group_ops,
        {
            let ghost sa = basic_state_of(tame, tame_distance, wild, wild_distance, tames@, wilds@, group_ops, 0);
            if group_ops > u64::MAX - 2 {
                proof {
                    lemma_basic_witness(s0, drawn, 0, sa, None);
                    assert(basic_ends_with(s0, drawn.push(0), basic_result(None)));
                    assert(forall|i: int| 0 <= i < drawn.push(0).len() ==> 0 <= #[trigger] drawn.push(0)[i] < m2);
                }
                return None;
            }
            let tame_jump_distance = random_range_i64(rng, 0, m2);
            let tame_jump = generator_scalar_mul_i64::<G>(tame_jump_distance);
            proof {
                if group_laws::<G>() {
                    assert(G::spec_gen_mul(tame_distance as int).spec_add(G::spec_gen_mul(
                        tame_jump_distance as int,
                    )) == G::spec_gen_mul(tame_distance + tame_jump_distance));
                }
            }
            tame_distance = tame_distance + tame_jump_distance;
            if tame_distance > MAX_DISTANCE {
                proof {
                    lemma_basic_witness(s0, drawn, tame_jump_distance, sa, None);
                    assert(forall|i: int| 0 <= i < drawn.push(tame_jump_distance).len() ==> 0 <= #[trigger] drawn.push(tame_jump_distance)[i] < m2);
                }
                return None;
            }
            tame = tame.group_add(&tame_jump);
            group_ops = group_ops + 1;
            let tame_key = tame.key();
            match wilds.get(&tame_key) {
                Some(found) => {
                    let w_distance = *found;
                    let discrete_log = match Self::collision(tame_distance, w_distance) {
                        Some(v) => v,
                        None => {
                            proof {
                                lemma_basic_witness(s0, drawn, tame_jump_distance, sa, None);
                                assert(forall|i: int| 0 <= i < drawn.push(tame_jump_distance).len() ==> 0 <= #[trigger] drawn.push(tame_jump_distance)[i] < m2);
                            }
                            return None;
                        },
                    };
                    proof {
                        lemma_tame_wild1::<G>(element, x0, tame_distance as int, w_distance as int);
                    }
                    let res = Solution::new(discrete_log, group_ops);
                    proof {
                        lemma_basic_witness(s0, drawn, tame_jump_distance, sa, basic_result(Some(res)));
                        assert(forall|i: int| 0 <= i < drawn.push(tame_jump_distance).len() ==> 0 <= #[trigger] drawn.push(tame_jump_distance)[i] < m2);
                    }
                    return Some(res);
                },
                None => {},
            }
            proof {
                if group_laws::<G>() {
                    lemma_keys_at_insert::<G>(tames@, 0, tame_distance);
                    assert(0 + tame_distance == tame_distance);
                }
            }
            tames.insert(tame_key, tame_distance);
            proof {
                lemma_basic_next(s0, drawn, tame_jump_distance, sa, basic_state_of(tame, tame_distance, wild, wild_distance, tames@, wilds@, group_ops, 1));
                drawn = drawn.push(tame_jump_distance);
            }

            let ghost sb = basic_state_of(tame, tame_distance, wild, wild_distance, tames@, wilds@, group_ops, 1);
            let wild_jump_distance = random_range_i64(rng, 0, m2);
            let wild_jump = generator_scalar_mul_i64::<G>(wild_jump_distance);
            proof {
                if ok {
                    assert(G::spec_gen_mul(x0 + wild_distance).spec_add(G::spec_gen_mul(
                        wild_jump_distance as int,
                    )) == G::spec_gen_mul(x0 + wild_distance + wild_jump_distance));
                }
            }
            wild_distance = wild_distance + wild_jump_distance;
            if wild_distance > MAX_DISTANCE {
                proof {
                    lemma_basic_witness(s0, drawn, wild_jump_distance, sb, None);
                    assert(forall|i: int| 0 <= i < drawn.push(wild_jump_distance).len() ==> 0 <= #[trigger] drawn.push(wild_jump_distance)[i] < m2);
                }
                return None;
            }
            wild = wild.group_add(&wild_jump);
            group_ops = group_ops + 1;
            let wild_key = wild.key();
            match tames.get(&wild_key) {
                Some(found) => {
                    let t_distance = *found;
                    let discrete_log = match Self::collision(t_distance, wild_distance) {
                        Some(v) => v,
                        None => {
                            proof {
                                lemma_basic_witness(s0, drawn, wild_jump_distance, sb, None);
                                assert(forall|i: int| 0 <= i < drawn.push(wild_jump_distance).len() ==> 0 <= #[trigger] drawn.push(wild_jump_distance)[i] < m2);
                            }
                            return None;
                        },
                    };
                    proof {
                        lemma_tame_wild1::<G>(element, x0, t_distance as int, wild_distance as int);
                    }
                    let res = Solution::new(discrete_log, group_ops);
                    proof {
                        lemma_basic_witness(s0, drawn, wild_jump_distance, sb, basic_result(Some(res)));
                        assert(forall|i: int| 0 <= i < drawn.push(wild_jump_distance).len() ==> 0 <= #[trigger] drawn.push(wild_jump_distance)[i] < m2);
                    }
                    return Some(res);
                },
                None => {},
            }
            proof {
                if ok {
                    lemma_keys_at_insert::<G>(wilds@, x0, wild_distance);
                }
            }
            wilds.insert(wild_key, wild_distance);
            proof {
                lemma_basic_next(s0, drawn, wild_jump_distance, sb, basic_state_of(tame, tame_distance, wild, wild_distance, tames@, wilds@, group_ops, 0));
                drawn = drawn.push(wild_jump_distance);
            }
        }
    }
}

impl DiscreteLogSolver for Basic {
    open spec fn accepts(&self, l: int, h: int) -> bool {
        true
    }

    fn solve<G: KangarooGroup>(
        &self,
        element: G,
        l: i64,
        h: i64,
        rng: &mut Xoshiro256PlusPlus,
    ) -> (r: Option<Solution>)
        ensures
            basic_shifted_run(element, l as int, h as int, r),
    {
        let n = h - l;
        let n_half = n / 2;
        let shift = l + n_half;
        let shifted = element.group_sub(&generator_scalar_mul_i64::<G>(shift));
        let solution = self.solve_symmetric(shifted, n, rng)?;
        let discrete_log = solution.discrete_log().checked_add(shift)?;
        proof {
            assert forall|x: int|
                #![trigger G::spec_gen_mul(x)]
                group_laws::<G>() && G::spec_gen_mul(x) == element && l <= x < h implies (
                discrete_log as int) % G::spec_order() == x % G::spec_order() by {
                lemma_shift::<G>(x, shift as int);
                lemma_unshift(solution.spec_discrete_log() as int, x, shift as int,
                    G::spec_order());
            }
            if has_log_in(element, l as int, h as int) {
                lemma_exact_near(element, l as int, h as int, shift as int, discrete_log as int);
            }
        }
        let res = Solution::new(discrete_log, solution.group_ops());
        proof {
            assert(basic_result(Some(solution)) == Some(((res.spec_discrete_log() - (l + (h - l) / 2)) as i64, res.spec_group_ops())));
            assert(shifted == basic_shifted(element, l as int, h as int));
            assert(basic_shifted_run(element, l as int, h as int, Some(res)));
        }
        Some(res)
    }
}

} // verus!
