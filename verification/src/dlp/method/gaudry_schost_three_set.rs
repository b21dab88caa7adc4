//! Gaudry-Schost with three sets, sampled independently: tame points from
//! `[ALPHA N/2, (ALPHA + GAMMA) N/2)`, wild points `Q + w G` and `-Q + w G`
//! with `w` from `[-GAMMA N/4, GAMMA N/4)`, `GAMMA = 0.588`,
//! `ALPHA = GAMMA / 2`.
use std::collections::HashMap;
use vstd::prelude::*;

use crate::dlp::{
    has_log_in, lemma_exact_near, MAX_DISTANCE,
    collision_tw1_spec, collision_tw2_spec, half_toward_zero, keys_at, lemma_exact,
    lemma_keys_at_insert, lemma_neg_congruence, lemma_same_key, lemma_shift, lemma_solves_interval,
    lemma_tame_wild1, lemma_tame_wild2, lemma_unshift, order_ok, solves_interval, some_dlog,
    DiscreteLogSolver, Solution,
};
use crate::group::{generator_scalar_mul_i64, group_laws, signed_gen_mul, KangarooGroup};
use crate::rng::random_range_i64;
use rand::rngs::Xoshiro256PlusPlus;
use vstd::arithmetic::div_mod::*;

verus! {

broadcast use vstd::std_specs::hash::group_hash_axioms;

/// The idealised improved three-set Gaudry-Schost solver.
#[derive(Default)]
pub struct GaudrySchostImprovedThreeSetIdeal;

/// `floor(ALPHA * n_half)`, where the tame distances begin.
pub open spec fn tame_low_spec(n_half: int) -> int {
    n_half * 147 / 500
}

/// `ceil((ALPHA + GAMMA) * n_half)`, where the tame distances end.
pub open spec fn tame_high_spec(n_half: int) -> int {
    (n_half * 441 + 499) / 500
}

/// `ceil(GAMMA / 2 * n_half)`: the wild distances lie in
/// `[-wild_high_spec, wild_high_spec)`.
pub open spec fn wild_high_spec(n_half: int) -> int {
    (n_half * 147 + 499) / 500
}

/// The two wild points meet: `x = (wild2_distance - wild1_distance) / 2`,
/// rounded toward zero.
pub open spec fn three_set_w1w2_spec(wild1_distance: int, wild2_distance: int) -> int {
    half_toward_zero(wild2_distance - wild1_distance)
}

/// The sampling state between two samples: the distances stored under
/// each point's key for the tame set and the two wild sets, the operation
/// count and which set samples next (`0` tame, `1` from `Q`, `2` from `-Q`).
pub struct ThreeSetState {
    pub tames: Map<u128, i64>,
    pub wilds1: Map<u128, i64>,
    pub wilds2: Map<u128, i64>,
    pub ops: u64,
    pub turn: u8,
}

/// The outcome of one sample: the run ends with an answer (logarithm and
/// operation count), or goes on.
pub enum ThreeSetMove {
    Done(Option<(i64, u64)>),
    Next(ThreeSetState),
}

/// The state before the first sample: nothing stored.
pub open spec fn three_set_start() -> ThreeSetState {
    ThreeSetState { tames: Map::empty(), wilds1: Map::empty(), wilds2: Map::empty(), ops: 0, turn: 0 }
}

/// One sample with the drawn distance `j`: the point `j G`, `Q + j G` or
/// `-Q + j G` (one group operation) is stored under its key and looked up
/// in the other sets, the first match giving the answer. The run gives up
/// before a tame sample when the counter is within `3` of `u64::MAX`.
pub open spec fn three_set_move<G: KangarooGroup>(element: G, s: ThreeSetState, j: i64) -> ThreeSetMove {
    let ops = (s.ops + 1) as u64;
    if s.turn == 0 {
        let k = signed_gen_mul::<G>(j as int).spec_key();
        if s.ops > u64::MAX - 3 {
            ThreeSetMove::Done(None)
        } else if s.wilds1.contains_key(k) {
            ThreeSetMove::Done(Some((collision_tw1_spec(j as int, s.wilds1[k] as int) as i64, ops)))
        } else if s.wilds2.contains_key(k) {
            ThreeSetMove::Done(Some((collision_tw2_spec(j as int, s.wilds2[k] as int) as i64, ops)))
        } else {
            ThreeSetMove::Next(ThreeSetState { tames: s.tames.insert(k, j), ops, turn: 1, ..s })
        }
    } else if s.turn == 1 {
        let k = element.spec_add(signed_gen_mul::<G>(j as int)).spec_key();
        if s.tames.contains_key(k) {
            ThreeSetMove::Done(Some((collision_tw1_spec(s.tames[k] as int, j as int) as i64, ops)))
        } else if s.wilds2.contains_key(k) {
            ThreeSetMove::Done(Some((three_set_w1w2_spec(j as int, s.wilds2[k] as int) as i64, ops)))
        } else {
            ThreeSetMove::Next(ThreeSetState { wilds1: s.wilds1.insert(k, j), ops, turn: 2, ..s })
        }
    } else {
        let k = element.spec_neg().spec_add(signed_gen_mul::<G>(j as int)).spec_key();
        if s.tames.contains_key(k) {
            ThreeSetMove::Done(Some((collision_tw2_spec(s.tames[k] as int, j as int) as i64, ops)))
        } else if s.wilds1.contains_key(k) {
            ThreeSetMove::Done(Some((three_set_w1w2_spec(s.wilds1[k] as int, j as int) as i64, ops)))
        } else {
            ThreeSetMove::Next(ThreeSetState { wilds2: s.wilds2.insert(k, j), ops, turn: 0, ..s })
        }
    }
}

/// The state after the first `k` samples `draws`, while none ended the run.
pub open spec fn three_set_after<G: KangarooGroup>(element: G, draws: Seq<i64>, k: nat) -> Option<ThreeSetState>
    decreases k,
{
    if k == 0 {
        Some(three_set_start())
    } else {
        match three_set_after(element, draws, (k - 1) as nat) {
            Some(s) => match three_set_move(element, s, draws[k - 1]) {
                ThreeSetMove::Next(s2) => Some(s2),
                ThreeSetMove::Done(_) => None,
            },
            None => None,
        }
    }
}

/// The draws lie in their sets' ranges for `n_half = N / 2`: tame samples
/// (every third, from the first) in `[tame_low, tame_high)`, wild samples
/// in `[-wild_high, wild_high)`.
pub open spec fn three_set_draws_ok(draws: Seq<i64>, n_half: int) -> bool {
    forall|i: int|
        0 <= i < draws.len() ==> if i % 3 == 0 {
            tame_low_spec(n_half) <= #[trigger] draws[i] < tame_high_spec(n_half)
        } else {
            -wild_high_spec(n_half) <= draws[i] < wild_high_spec(n_half)
        }
}

/// The sampling on `element` with some draws in their ranges ends at the
/// last of them with `v`.
pub open spec fn three_set_run_gives<G: KangarooGroup>(element: G, n_half: int, v: Option<(i64, u64)>) -> bool {
    exists|draws: Seq<i64>|
        #![trigger three_set_after(element, draws, (draws.len() - 1) as nat)]
        draws.len() >= 1 && three_set_draws_ok(draws, n_half) && (three_set_after(
            element,
            draws,
            (draws.len() - 1) as nat,
        ) matches Some(s) && three_set_move(element, s, draws.last()) == ThreeSetMove::Done(v))
}

/// After `k` samples that all went on, `k` operations are counted, one per
/// sample from any of the three sets; the samples go round tame, `Q`-wild,
/// `-Q`-wild, and the counter stays below its limit.
pub proof fn lemma_three_set_after_count<G: KangarooGroup>(element: G, draws: Seq<i64>, k: nat)
    ensures
        three_set_after(element, draws, k) matches Some(s) ==> s.ops == k && (s.turn == 0 || (s.turn
            == 1 && s.ops <= u64::MAX - 2) || (s.turn == 2 && s.ops <= u64::MAX - 1)),
    decreases k,
{
    if k > 0 {
        lemma_three_set_after_count(element, draws, (k - 1) as nat);
    }
}

/// The sampling on `element` ends with the answer `v` after exactly `v.1`
/// draws in their ranges: the count is the number of points sampled.
pub open spec fn three_set_counted_run<G: KangarooGroup>(element: G, n_half: int, v: (i64, u64)) -> bool {
    exists|draws: Seq<i64>|
        #![trigger three_set_after(element, draws, (draws.len() - 1) as nat)]
        draws.len() >= 1 && three_set_draws_ok(draws, n_half) && (three_set_after(
            element,
            draws,
            (draws.len() - 1) as nat,
        ) matches Some(s) && three_set_move(element, s, draws.last()) == ThreeSetMove::Done(Some(v)))
            && v.1 == draws.len()
}

/// Every sampled point counts one group operation, whichever of the three
/// sets it comes from: an answer reports as many operations as points were
/// sampled until the match.
pub proof fn lemma_three_set_run_count<G: KangarooGroup>(element: G, n_half: int, v: (i64, u64))
    requires
        three_set_run_gives(element, n_half, Some(v)),
    ensures
        three_set_counted_run(element, n_half, v),
{
    let draws = choose|draws: Seq<i64>|
        #![trigger three_set_after(element, draws, (draws.len() - 1) as nat)]
        draws.len() >= 1 && three_set_draws_ok(draws, n_half) && (three_set_after(
            element,
            draws,
            (draws.len() - 1) as nat,
        ) matches Some(s) && three_set_move(element, s, draws.last()) == ThreeSetMove::Done(Some(v)));
    lemma_three_set_after_count(element, draws, (draws.len() - 1) as nat);
    assert(v.1 == draws.len());
}

/// A draw in the range of its set extends draws in their ranges.
pub proof fn lemma_three_set_draws_push(d: Seq<i64>, j: i64, n_half: int)
    requires
        three_set_draws_ok(d, n_half),
        d.len() % 3 == 0 ==> tame_low_spec(n_half) <= j < tame_high_spec(n_half),
        d.len() % 3 != 0 ==> -wild_high_spec(n_half) <= j < wild_high_spec(n_half),
    ensures
        three_set_draws_ok(d.push(j), n_half),
{
    assert forall|i: int| 0 <= i < d.push(j).len() implies if i % 3 == 0 {
        tame_low_spec(n_half) <= #[trigger] d.push(j)[i] < tame_high_spec(n_half)
    } else {
        -wild_high_spec(n_half) <= d.push(j)[i] < wild_high_spec(n_half)
    } by {
        if i < d.len() {
            assert(d.push(j)[i] == d[i]);
        }
    }
}

/// The run after `k` samples depends only on the first `k` draws.
pub proof fn lemma_three_set_after_prefix<G: KangarooGroup>(element: G, d: Seq<i64>, j: i64, k: nat)
    requires
        k <= d.len(),
    ensures
        three_set_after(element, d.push(j), k) == three_set_after(element, d, k),
    decreases k,
{
    if k > 0 {
        lemma_three_set_after_prefix(element, d, j, (k - 1) as nat);
        assert(d.push(j)[k - 1] == d[k - 1]);
    }
}

/// A sample that ends the run at the next draw `j` gives its result.
pub proof fn lemma_three_set_witness<G: KangarooGroup>(
    element: G,
    n_half: int,
    drawn: Seq<i64>,
    j: i64,
    cur: ThreeSetState,
    v: Option<(i64, u64)>,
)
    requires
        three_set_after(element, drawn, drawn.len()) == Some(cur),
        three_set_move(element, cur, j) == ThreeSetMove::Done(v),
        three_set_draws_ok(drawn.push(j), n_half),
    ensures
        three_set_run_gives(element, n_half, v),
{
    lemma_three_set_after_prefix(element, drawn, j, drawn.len());
    let d = drawn.push(j);
    assert(d.last() == j);
    assert((d.len() - 1) as nat == drawn.len());
    assert(three_set_after(element, d, (d.len() - 1) as nat) == Some(cur));
}

/// A sample that goes on at the next draw `j` gives the state after it.
pub proof fn lemma_three_set_next<G: KangarooGroup>(
    element: G,
    drawn: Seq<i64>,
    j: i64,
    cur: ThreeSetState,
    next: ThreeSetState,
)
    requires
        three_set_after(element, drawn, drawn.len()) == Some(cur),
        three_set_move(element, cur, j) == ThreeSetMove::Next(next),
    ensures
        three_set_after(element, drawn.push(j), drawn.push(j).len()) == Some(next),
{
    lemma_three_set_after_prefix(element, drawn, j, drawn.len());
    assert(drawn.push(j)[drawn.len() as int] == j);
}

/// The logarithm and count of a solution, if any.
pub open spec fn three_set_result(r: Option<Solution>) -> Option<(i64, u64)> {
    match r {
        Some(s) => Some((s.spec_discrete_log(), s.spec_group_ops())),
        None => None,
    }
}

impl GaudrySchostImprovedThreeSetIdeal {
    /// The solver.
    pub fn new() -> (r: Self)
        ensures
            r == GaudrySchostImprovedThreeSetIdeal,
    {
        GaudrySchostImprovedThreeSetIdeal
    }

    fn collision_tw1(tame_distance: i64, wild1_distance: i64) -> (r: i64)
        requires
            i64::MIN <= tame_distance - wild1_distance <= i64::MAX,
        ensures
            r == collision_tw1_spec(tame_distance as int, wild1_distance as int),
    {
        tame_distance - wild1_distance
    }

    fn collision_tw2(tame_distance: i64, wild2_distance: i64) -> (r: i64)
        requires
            i64::MIN <= wild2_distance - tame_distance <= i64::MAX,
        ensures
            r == collision_tw2_spec(tame_distance as int, wild2_distance as int),
    {
        wild2_distance - tame_distance
    }

    fn collision_w1w2(wild1_distance: i64, wild2_distance: i64) -> (r: i64)
        requires
            i64::MIN <= wild2_distance - wild1_distance <= i64::MAX,
        ensures
            r == three_set_w1w2_spec(wild1_distance as int, wild2_distance as int),
    {
        (wild2_distance - wild1_distance) / 2
    }

    /// The sampling ranges for `n_half = N / 2`: `(tame_low, tame_high,
    /// wild_low, wild_high)`.
    pub fn bounds(n_half: i64) -> (r: (i64, i64, i64, i64))
        requires
            1 <= n_half <= 0x1000_0000_0000_0000,
        ensures
            r.0 == tame_low_spec(n_half as int),
            r.1 == tame_high_spec(n_half as int),
            r.2 == -wild_high_spec(n_half as int),
            r.3 == wild_high_spec(n_half as int),
            0 <= r.0 < r.1 <= n_half,
            1 <= r.3 <= n_half,
    {
        let h = n_half as u128;
        let tame_low = h * 147 / 500;
        let tame_high = (h * 441 + 499) / 500;
        let wild_high = (h * 147 + 499) / 500;
        assert(tame_low < tame_high <= h && 1 <= wild_high <= h) by (nonlinear_arith)
            requires
                tame_low == h * 147 / 500,
                tame_high == (h * 441 + 499) / 500,
                wild_high == (h * 147 + 499) / 500,
                1 <= h,
        {
            assert(tame_low * 500 <= h * 147);
            assert(tame_high * 500 > h * 441 - 1);
            assert(wild_high * 500 > h * 147 - 1);
            assert(wild_high * 500 <= h * 147 + 499);
            assert(tame_high * 500 <= h * 441 + 499);
        }
        (tame_low as i64, tame_high as i64, -(wild_high as i64), wild_high as i64)
    }

    /// The sampling on `[-N/2, N - N/2)`: `Some` only with the logarithm of
    /// `element` in that interval. `None` when the operation counter would
    /// leave `u64`.
    #[verifier::rlimit(100)]
    #[verifier::spinoff_prover]
    pub fn solve_symmetric<G: KangarooGroup>(
        &self,
        element: G,
        n: i64,
        rng: &mut Xoshiro256PlusPlus,
    ) -> (r: Option<Solution>)
        requires
            2 <= n <= 0x2000_0000_0000_0000,
            order_ok::<G>(),
        ensures
            r matches Some(s) ==> solves_interval(
                element,
                -(n / 2),
                n - n / 2,
                s.spec_discrete_log() as int,
            ),
            r matches Some(s) ==> -MAX_DISTANCE <= s.spec_discrete_log() <= MAX_DISTANCE,
            three_set_run_gives(element, n / 2, three_set_result(r)),
    {
        let ghost x0 = some_dlog(element);
        let ghost ok = group_laws::<G>() && G::spec_gen_mul(x0) == element;
        let n_half = n / 2;
        let (tame_low, tame_high, wild_low, wild_high) = Self::bounds(n_half);
        let neg_element = element.group_neg();
        proof {
            if ok {
                assert(G::spec_gen_mul(x0).spec_neg() == G::spec_gen_mul(-x0));
            }
        }

        let mut group_ops: u64 = 0;
        let mut tames: HashMap<u128, i64> = HashMap::new();
        let mut wilds1: HashMap<u128, i64> = HashMap::new();
        let mut wilds2: HashMap<u128, i64> = HashMap::new();
        let ghost mut drawn: Seq<i64> = Seq::empty();
        assert(three_set_after(element, drawn, 0) == Some((ThreeSetState { tames: tames@, wilds1: wilds1@, wilds2: wilds2@, ops: group_ops, turn: 0 })));
        loop
            invariant
                drawn.len() == group_ops,
                three_set_draws_ok(drawn, n_half as int),
                drawn.len() % 3 == 0,
                neg_element == element.spec_neg(),
                tame_low == tame_low_spec(n_half as int),
                tame_high == tame_high_spec(n_half as int),
                wild_high == wild_high_spec(n_half as int),
                three_set_after(element, drawn, drawn.len()) == Some((ThreeSetState { tames: tames@, wilds1: wilds1@, wilds2: wilds2@, ops: group_ops, turn: 0 })),
                2 <= n <= 0x2000_0000_0000_0000,
                n_half == n / 2,
                0 <= tame_low < tame_high <= n_half,
                wild_low == -wild_high,
                1 <= wild_high <= n_half,
                order_ok::<G>(),
                ok == (group_laws::<G>() && G::spec_gen_mul(x0) == element),
                x0 == some_dlog(element),
                ok ==> neg_element == G::spec_gen_mul(-x0),
                group_laws::<G>() ==> keys_at::<G>(tames@, 0),
                ok ==> keys_at::<G>(wilds1@, x0),
                ok ==> keys_at::<G>(wilds2@, -x0),
                forall|k: u128| #[trigger]
                    tames@.contains_key(k) ==> tame_low <= tames@[k] < tame_high,
                forall|k: u128| #[trigger]
                    wilds1@.contains_key(k) ==> wild_low <= wilds1@[k] < wild_high,
                forall|k: u128| #[trigger]
                    wilds2@.contains_key(k) ==> wild_low <= wilds2@[k] < wild_high,
            decreases u64::MAX - group_ops,
        {
            let ghost sa = ThreeSetState { tames: tames@, wilds1: wilds1@, wilds2: wilds2@, ops: group_ops, turn: 0 };
            if group_ops > u64::MAX - 3 {
                proof {
                    lemma_three_set_draws_push(drawn, tame_low, n_half as int);
                    lemma_three_set_witness(element, n_half as int, drawn, tame_low, sa, None);
                }
                return None;
            }
            let tame_distance = random_range_i64(rng, tame_low, tame_high);
            proof {
                lemma_three_set_draws_push(drawn, tame_distance, n_half as int);
            }
            let tame = generator_scalar_mul_i64::<G>(tame_distance);
            let key = tame.key();
            proof {
                if group_laws::<G>() {
                    lemma_keys_at_insert::<G>(tames@, 0, tame_distance);
                    assert(0 + tame_distance == tame_distance);
                }
            }
            tames.insert(key, tame_distance);
            group_ops = group_ops + 1;
            match wilds1.get(&key) {
                Some(found) => {
                    let w1d = *found;
                    let discrete_log = Self::collision_tw1(tame_distance, w1d);
                    proof {
                        lemma_tame_wild1::<G>(element, x0, tame_distance as int, w1d as int);
                        lemma_solves_interval(element, -(n / 2), n - n / 2, discrete_log as int);
                    }
                    let res = Solution::new(discrete_log, group_ops);
                    proof {
                        lemma_three_set_witness(element, n_half as int, drawn, tame_distance, sa, three_set_result(Some(res)));
                    }
                    return Some(res);
                },
                None => {},
            }
            match wilds2.get(&key) {
                Some(found) => {
                    let w2d = *found;
                    let discrete_log = Self::collision_tw2(tame_distance, w2d);
                    proof {
                        lemma_tame_wild2::<G>(element, x0, tame_distance as int, w2d as int);
                        lemma_solves_interval(element, -(n / 2), n - n / 2, discrete_log as int);
                    }
                    let res = Solution::new(discrete_log, group_ops);
                    proof {
                        lemma_three_set_witness(element, n_half as int, drawn, tame_distance, sa, three_set_result(Some(res)));
                    }
                    return Some(res);
                },
                None => {},
            }

            proof {
                lemma_three_set_next(element, drawn, tame_distance, sa, ThreeSetState { tames: tames@, wilds1: wilds1@, wilds2: wilds2@, ops: group_ops, turn: 1 });
                drawn = drawn.push(tame_distance);
            }
            let ghost sb = ThreeSetState { tames: tames@, wilds1: wilds1@, wilds2: wilds2@, ops: group_ops, turn: 1 };
            let wild1_distance = random_range_i64(rng, wild_low, wild_high);
            proof {
                lemma_three_set_draws_push(drawn, wild1_distance, n_half as int);
            }
            let wild1 = element.group_add(&generator_scalar_mul_i64::<G>(wild1_distance));
            let key = wild1.key();
            proof {
                if ok {
                    lemma_keys_at_insert::<G>(wilds1@, x0, wild1_distance);
                }
            }
            wilds1.insert(key, wild1_distance);
            group_ops = group_ops + 1;
            match tames.get(&key) {
                Some(found) => {
                    let td = *found;
                    let discrete_log = Self::collision_tw1(td, wild1_distance);
                    proof {
                        lemma_tame_wild1::<G>(element, x0, td as int, wild1_distance as int);
                        lemma_solves_interval(element, -(n / 2), n - n / 2, discrete_log as int);
                    }
                    let res = Solution::new(discrete_log, group_ops);
                    proof {
                        lemma_three_set_witness(element, n_half as int, drawn, wild1_distance, sb, three_set_result(Some(res)));
                    }
                    return Some(res);
                },
                None => {},
            }
            match wilds2.get(&key) {
                Some(found) => {
                    let w2d = *found;
                    let discrete_log = Self::collision_w1w2(wild1_distance, w2d);
                    proof {
                        lemma_three_set_w1w2::<G>(element, x0, n as int, wild1_distance as int,
                            w2d as int);
                    }
                    let res = Solution::new(discrete_log, group_ops);
                    proof {
                        lemma_three_set_witness(element, n_half as int, drawn, wild1_distance, sb, three_set_result(Some(res)));
                    }
                    return Some(res);
                },
                None => {},
            }

            proof {
                lemma_three_set_next(element, drawn, wild1_distance, sb, ThreeSetState { tames: tames@, wilds1: wilds1@, wilds2: wilds2@, ops: group_ops, turn: 2 });
                drawn = drawn.push(wild1_distance);
            }
            let ghost sc = ThreeSetState { tames: tames@, wilds1: wilds1@, wilds2: wilds2@, ops: group_ops, turn: 2 };
            let wild2_distance = random_range_i64(rng, wild_low, wild_high);
            proof {
                lemma_three_set_draws_push(drawn, wild2_distance, n_half as int);
            }
            let wild2 = neg_element.group_add(&generator_scalar_mul_i64::<G>(wild2_distance));
            let key = wild2.key();
            proof {
                if ok {
                    lemma_keys_at_insert::<G>(wilds2@, -x0, wild2_distance);
                }
            }
            wilds2.insert(key, wild2_distance);
            group_ops = group_ops + 1;
            match tames.get(&key) {
                Some(found) => {
                    let td = *found;
                    let discrete_log = Self::collision_tw2(td, wild2_distance);
                    proof {
                        lemma_tame_wild2::<G>(element, x0, td as int, wild2_distance as int);
                        lemma_solves_interval(element, -(n / 2), n - n / 2, discrete_log as int);
                    }
                    let res = Solution::new(discrete_log, group_ops);
                    proof {
                        lemma_three_set_witness(element, n_half as int, drawn, wild2_distance, sc, three_set_result(Some(res)));
                    }
                    return Some(res);
                },
                None => {},
            }
            match wilds1.get(&key) {
                Some(found) => {
                    let w1d = *found;
                    let discrete_log = Self::collision_w1w2(w1d, wild2_distance);
                    proof {
                        lemma_three_set_w1w2::<G>(element, x0, n as int, w1d as int,
                            wild2_distance as int);
                    }
                    let res = Solution::new(discrete_log, group_ops);
                    proof {
                        lemma_three_set_witness(element, n_half as int, drawn, wild2_distance, sc, three_set_result(Some(res)));
                    }
                    return Some(res);
                },
                None => {},
            }
            proof {
                lemma_three_set_next(element, drawn, wild2_distance, sc, ThreeSetState { tames: tames@, wilds1: wilds1@, wilds2: wilds2@, ops: group_ops, turn: 0 });
                drawn = drawn.push(wild2_distance);
            }
        }
    }
}

/// The wild points `(x0 + w1) * G` and `(-x0 + w2) * G` coincide. For a
/// logarithm `y` in `[-N/2, N - N/2)` and distances of at most `N/2`, the
/// congruence `2y == w2 - w1` holds exactly, so the halved difference is `y`.
proof fn lemma_three_set_w1w2<G: KangarooGroup>(element: G, x0: int, n: int, w1: int, w2: int)
    requires
        x0 == some_dlog(element),
        2 <= n <= 0x2000_0000_0000_0000,
        -(n / 2) <= w1 <= n / 2,
        -(n / 2) <= w2 <= n / 2,
        order_ok::<G>(),
        group_laws::<G>() && G::spec_gen_mul(x0) == element ==> G::spec_gen_mul(x0 + w1).spec_key()
            == G::spec_gen_mul(-x0 + w2).spec_key(),
    ensures
        solves_interval(element, -(n / 2), n - n / 2, three_set_w1w2_spec(w1, w2)),
{
    let r = three_set_w1w2_spec(w1, w2);
    assert forall|y: int|
        #![trigger G::spec_gen_mul(y)]
        group_laws::<G>() && G::spec_gen_mul(y) == element && -(n / 2) <= y < n - n / 2 implies r
        % G::spec_order() == y % G::spec_order() by {
        let q = G::spec_order();
        assert(G::spec_gen_mul(y) == G::spec_gen_mul(x0));
        lemma_same_key::<G>(x0 + w1, -x0 + w2);
        assert(x0 % q == y % q);
        lemma_add_mod_noop(x0, w1, q);
        lemma_add_mod_noop(y, w1, q);
        lemma_neg_congruence(x0, y, q);
        lemma_add_mod_noop(-x0, w2, q);
        lemma_add_mod_noop(-y, w2, q);
        assert((y + w1) % q == (-y + w2) % q);
        lemma_exact(y + w1, -y + w2, q);
        assert(2 * y == w2 - w1);
        assert(half_toward_zero(w2 - w1) == y);
    }
}

impl DiscreteLogSolver for GaudrySchostImprovedThreeSetIdeal {
    open spec fn accepts(&self, l: int, h: int) -> bool {
        h - l >= 2
    }

    fn solve<G: KangarooGroup>(
        &self,
        element: G,
        l: i64,
        h: i64,
        rng: &mut Xoshiro256PlusPlus,
    ) -> (r: Option<Solution>)
        ensures
            r matches Some(s) ==> three_set_run_gives(
                element.spec_add(signed_gen_mul::<G>(l + (h - l) / 2).spec_neg()),
                (h - l) / 2,
                Some(((s.spec_discrete_log() - (l + (h - l) / 2)) as i64, s.spec_group_ops())),
            ),
    {
        let n = h - l;
        let n_half = n / 2;
        let shift = l + n_half;
        let shifted = element.group_sub(&generator_scalar_mul_i64::<G>(shift));
        let solution = self.solve_symmetric(shifted, n, rng)?;
        let discrete_log = solution.discrete_log().checked_add(shift)?;
        proof {
            assert forall|x: int|
                #![trigger G::spec_gen_mul(x)]
                group_laws::<G>() && G::spec_gen_mul(x) == element && l <= x < h implies (
                discrete_log as int) % G::spec_order() == x % G::spec_order() by {
                lemma_shift::<G>(x, shift as int);
                assert(G::spec_gen_mul(x - shift) == shifted);
                assert(-(n / 2) <= x - shift < n - n / 2);
                lemma_unshift(solution.spec_discrete_log() as int, x, shift as int,
                    G::spec_order());
            }
            if has_log_in(element, l as int, h as int) {
                lemma_exact_near(element, l as int, h as int, shift as int, discrete_log as int);
            }
        }
        let res = Solution::new(discrete_log, solution.group_ops());
        proof {
            assert(three_set_result(Some(solution)) == Some(((res.spec_discrete_log() - (l + (h - l) / 2)) as i64, res.spec_group_ops())));
        }
        Some(res)
    }
}

} // verus!
