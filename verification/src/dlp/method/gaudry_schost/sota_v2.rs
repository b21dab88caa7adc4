//! Gaudry-Schost on equivalence classes `{P, -P}`: one tame point `t G`
//! with `t` from `[0, N / 128)` and two wild points `Q + w G` with even `w`
//! from `[-N/2, N/2)` per round, each replaced by the representative of its
//! class. A match gives `+-x`; the sign is settled by one multiplication.
use std::collections::HashMap;
use vstd::prelude::*;

use crate::dlp::{
    has_log_in, lemma_exact_near, MAX_DISTANCE,
    keys_at, lemma_add_congruence, lemma_exact, lemma_halve, lemma_keys_at_insert,
    lemma_neg_congruence, lemma_same_key, lemma_shift, lemma_solves_from_witness, lemma_unshift,
    order_ok, pm, solves, some_dlog, DiscreteLogSolver, Solution,
};
use crate::group::{
    generator_scalar_mul_i64, group_laws, lemma_signed_gen_mul, signed_gen_mul, KangarooGroup,
};
use crate::rng::random_range_i64;
use rand::rngs::Xoshiro256PlusPlus;

verus! {

broadcast use vstd::std_specs::hash::group_hash_axioms;

/// The Gaudry-Schost solver on classes `{P, -P}`.
#[derive(Default)]
pub struct SotaV2;

/// A tame point at `tame_distance` meets a wild point at `wild_distance`:
/// `+-x = tame_distance - wild_distance`.
pub open spec fn sota_tw_spec(tame_distance: int, wild_distance: int) -> int {
    tame_distance - wild_distance
}

/// Two wild points of opposite signs meet: `+-x = (wild2 - wild1) / 2`.
pub open spec fn sota_w1w2_spec(wild1_distance: int, wild2_distance: int) -> int {
    (wild2_distance - wild1_distance) / 2
}

/// Every key `k` of `t` is the key of the wild point `(+-x + t[k]) * G`,
/// the sign being `signs[k]`.
pub open spec fn wild_keys_at<G: KangarooGroup>(
    t: Map<u128, i64>,
    signs: Map<u128, bool>,
    x: int,
) -> bool {
    forall|k: u128| #[trigger]
        t.contains_key(k) ==> signs.contains_key(k) && G::spec_gen_mul(
            pm(signs[k], x) + t[k],
        ).spec_key() == k
}

/// The wild distances: even and at most `N / 2` in absolute value.
pub open spec fn wild_distances_ok(t: Map<u128, i64>, n: int) -> bool {
    forall|k: u128| #[trigger]
        t.contains_key(k) ==> -(n / 2) <= t[k] <= n / 2 && t[k] % 2 == 0
}

/// `v` if `v * G` is the target, else `-v`: the sign settled.
pub open spec fn settled<G: KangarooGroup>(element: G, v: int) -> int {
    if signed_gen_mul::<G>(v) == element {
        v
    } else {
        -v
    }
}

/// `x` rounded toward zero to an even number.
pub open spec fn even_toward_zero(x: int) -> int {
    if x >= 0 {
        x / 2 * 2
    } else {
        -((-x) / 2 * 2)
    }
}

/// The representative of the class of `p` and the distance that goes with
/// it: `(p, d)`, or `(-p, -d)` when `p` does not represent its class.
pub open spec fn class_of<G: KangarooGroup>(p: G, d: int) -> (G, int) {
    if p.spec_is_negation_map_representative() {
        (p, d)
    } else {
        (p.spec_neg(), -d)
    }
}

/// The sampling state between two samples: the distances stored under
/// each class's key for the tame and the wild points, the operation count
/// and which sample is next (`0` tame, `1` and `2` wild).
pub struct SotaState {
    pub tames: Map<u128, i64>,
    pub wilds: Map<u128, i64>,
    pub ops: u64,
    pub turn: u8,
}

/// The outcome of one sample: the run ends with an answer (logarithm and
/// operation count), or goes on.
pub enum SotaMove {
    Done(Option<(i64, u64)>),
    Next(SotaState),
}

/// The state before the first sample: nothing stored.
pub open spec fn sota_start() -> SotaState {
    SotaState { tames: Map::empty(), wilds: Map::empty(), ops: 0, turn: 0 }
}

/// One sample with the draw `j`: the tame point `j G`, or the wild point
/// `Q + w G` with `w` the even number toward zero from `j`, is replaced by
/// its class representative (one group operation) and looked up: a tame
/// point against the wild ones, a wild point against the tame ones, then
/// against wild ones at another distance. A match gives `+-x`, settled by
/// sign. The run gives up before a tame sample when the counter is within
/// `3` of `u64::MAX`.
pub open spec fn sota_move<G: KangarooGroup>(element: G, s: SotaState, j: i64) -> SotaMove {
    let ops = (s.ops + 1) as u64;
    if s.turn == 0 {
        let (p, d) = class_of(signed_gen_mul::<G>(j as int), j as int);
        let k = p.spec_key();
        if s.ops > u64::MAX - 3 {
            SotaMove::Done(None)
        } else if s.wilds.contains_key(k) {
            SotaMove::Done(Some((settled(element, sota_tw_spec(d, s.wilds[k] as int)) as i64, ops)))
        } else {
            SotaMove::Next(SotaState { tames: s.tames.insert(k, d as i64), ops, turn: 1, ..s })
        }
    } else {
        let w = even_toward_zero(j as int);
        let (p, d) = class_of(element.spec_add(signed_gen_mul::<G>(w)), w);
        let k = p.spec_key();
        if s.tames.contains_key(k) {
            SotaMove::Done(Some((settled(element, sota_tw_spec(s.tames[k] as int, d)) as i64, ops)))
        } else if s.wilds.contains_key(k) && d != s.wilds[k] && d != -s.wilds[k] {
            SotaMove::Done(
                Some((settled(element, sota_w1w2_spec(d, s.wilds[k] as int)) as i64, ops)),
            )
        } else {
            SotaMove::Next(
                SotaState { wilds: s.wilds.insert(k, d as i64), ops, turn: if s.turn == 1 { 2 } else { 0 }, ..s },
            )
        }
    }
}

/// The state after the first `k` samples `draws`, while none ended the run.
pub open spec fn sota_after<G: KangarooGroup>(element: G, draws: Seq<i64>, k: nat) -> Option<SotaState>
    decreases k,
{
    if k == 0 {
        Some(sota_start())
    } else {
        match sota_after(element, draws, (k - 1) as nat) {
            Some(s) => match sota_move(element, s, draws[k - 1]) {
                SotaMove::Next(s2) => Some(s2),
                SotaMove::Done(_) => None,
            },
            None => None,
        }
    }
}

/// The draws lie in their ranges: tame draws (every third, from the first)
/// in `[0, N / 128)`, wild draws in `[-N/2, N/2)`.
pub open spec fn sota_draws_ok(draws: Seq<i64>, n: int) -> bool {
    forall|i: int|
        0 <= i < draws.len() ==> if i % 3 == 0 {
            0 <= #[trigger] draws[i] < n / 128
        } else {
            -(n / 2) <= draws[i] < n / 2
        }
}

/// The sampling on `element` with some draws in their ranges ends at the
/// last of them with `v`.
pub open spec fn sota_run_gives<G: KangarooGroup>(element: G, n: int, v: Option<(i64, u64)>) -> bool {
    exists|draws: Seq<i64>|
        #![trigger sota_after(element, draws, (draws.len() - 1) as nat)]
        draws.len() >= 1 && sota_draws_ok(draws, n) && (sota_after(
            element,
            draws,
            (draws.len() - 1) as nat,
        ) matches Some(s) && sota_move(element, s, draws.last()) == SotaMove::Done(v))
}

/// After `k` samples that all went on, `k` operations are counted, one per
/// sample, tame or wild; the samples go round tame, wild, wild, and the
/// counter stays below its limit.
pub proof fn lemma_sota_after_count<G: KangarooGroup>(element: G, draws: Seq<i64>, k: nat)
    ensures
        sota_after(element, draws, k) matches Some(s) ==> s.ops == k && (s.turn == 0 || (s.turn == 1
            && s.ops <= u64::MAX - 2) || (s.turn == 2 && s.ops <= u64::MAX - 1)),
    decreases k,
{
    if k > 0 {
        lemma_sota_after_count(element, draws, (k - 1) as nat);
    }
}

/// The sampling on `element` ends with the answer `v` after exactly `v.1`
/// draws in their ranges: the count is the number of points sampled.
pub open spec fn sota_counted_run<G: KangarooGroup>(element: G, n: int, v: (i64, u64)) -> bool {
    exists|draws: Seq<i64>|
        #![trigger sota_after(element, draws, (draws.len() - 1) as nat)]
        draws.len() >= 1 && sota_draws_ok(draws, n) && (sota_after(
            element,
            draws,
            (draws.len() - 1) as nat,
        ) matches Some(s) && sota_move(element, s, draws.last()) == SotaMove::Done(Some(v)))
            && v.1 == draws.len()
}

/// Every sampled point counts one group operation, the tame ones and the
/// wild ones alike: an answer reports as many operations as points were
/// sampled until the match.
pub proof fn lemma_sota_run_count<G: KangarooGroup>(element: G, n: int, v: (i64, u64))
    requires
        sota_run_gives(element, n, Some(v)),
    ensures
        sota_counted_run(element, n, v),
{
    let draws = choose|draws: Seq<i64>|
        #![trigger sota_after(element, draws, (draws.len() - 1) as nat)]
        draws.len() >= 1 && sota_draws_ok(draws, n) && (sota_after(
            element,
            draws,
            (draws.len() - 1) as nat,
        ) matches Some(s) && sota_move(element, s, draws.last()) == SotaMove::Done(Some(v)));
    lemma_sota_after_count(element, draws, (draws.len() - 1) as nat);
    assert(v.1 == draws.len());
}

/// A draw in its range extends draws in their ranges.
pub proof fn lemma_sota_draws_push(d: Seq<i64>, j: i64, n: int)
    requires
        sota_draws_ok(d, n),
        d.len() % 3 == 0 ==> 0 <= j < n / 128,
        d.len() % 3 != 0 ==> -(n / 2) <= j < n / 2,
    ensures
        sota_draws_ok(d.push(j), n),
{
    assert forall|i: int| 0 <= i < d.push(j).len() implies if i % 3 == 0 {
        0 <= #[trigger] d.push(j)[i] < n / 128
    } else {
        -(n / 2) <= d.push(j)[i] < n / 2
    } by {
        if i < d.len() {
            assert(d.push(j)[i] == d[i]);
        }
    }
}

/// The run after `k` samples depends only on the first `k` draws.
pub proof fn lemma_sota_after_prefix<G: KangarooGroup>(element: G, d: Seq<i64>, j: i64, k: nat)
    requires
        k <= d.len(),
    ensures
        sota_after(element, d.push(j), k) == sota_after(element, d, k),
    decreases k,
{
    if k > 0 {
        lemma_sota_after_prefix(element, d, j, (k - 1) as nat);
        assert(d.push(j)[k - 1] == d[k - 1]);
    }
}

/// A sample that ends the run at the next draw `j` gives its result.
pub proof fn lemma_sota_witness<G: KangarooGroup>(
    element: G,
    n: int,
    drawn: Seq<i64>,
    j: i64,
    cur: SotaState,
    v: Option<(i64, u64)>,
)
    requires
        sota_after(element, drawn, drawn.len()) == Some(cur),
        sota_move(element, cur, j) == SotaMove::Done(v),
        sota_draws_ok(drawn.push(j), n),
    ensures
        sota_run_gives(element, n, v),
{
    lemma_sota_after_prefix(element, drawn, j, drawn.len());
    let d = drawn.push(j);
    assert(d.last() == j);
    assert((d.len() - 1) as nat == drawn.len());
    assert(sota_after(element, d, (d.len() - 1) as nat) == Some(cur));
}

/// A sample that goes on at the next draw `j` gives the state after it.
pub proof fn lemma_sota_next<G: KangarooGroup>(
    element: G,
    drawn: Seq<i64>,
    j: i64,
    cur: SotaState,
    next: SotaState,
)
    requires
        sota_after(element, drawn, drawn.len()) == Some(cur),
        sota_move(element, cur, j) == SotaMove::Next(next),
    ensures
        sota_after(element, drawn.push(j), drawn.push(j).len()) == Some(next),
{
    lemma_sota_after_prefix(element, drawn, j, drawn.len());
    assert(drawn.push(j)[drawn.len() as int] == j);
}

/// The logarithm and count of a solution, if any.
pub open spec fn sota_result(r: Option<Solution>) -> Option<(i64, u64)> {
    match r {
        Some(s) => Some((s.spec_discrete_log(), s.spec_group_ops())),
        None => None,
    }
}

impl SotaV2 {
    fn collision_tw(tame_distance: i64, wild_distance: i64) -> (r: i64)
        requires
            i64::MIN <= tame_distance - wild_distance <= i64::MAX,
        ensures
            r == sota_tw_spec(tame_distance as int, wild_distance as int),
    {
        tame_distance - wild_distance
    }

    fn collision_w1w2(wild1_distance: i64, wild2_distance: i64) -> (r: i64)
        requires
            wild1_distance % 2 == 0,
            wild2_distance % 2 == 0,
            i64::MIN <= wild2_distance - wild1_distance <= i64::MAX,
        ensures
            r == sota_w1w2_spec(wild1_distance as int, wild2_distance as int),
    {
        (wild2_distance - wild1_distance) / 2
    }

    /// `discrete_log` if `discrete_log * G == element`, else `-discrete_log`.
    pub fn settle_sign<G: KangarooGroup>(element: &G, discrete_log: i64) -> (r: i64)
        requires
            -0x2000_0000_0000_0000 <= discrete_log <= 0x2000_0000_0000_0000,
            order_ok::<G>(),
        ensures
            r == (if signed_gen_mul::<G>(discrete_log as int) == *element {
                discrete_log as int
            } else {
                -discrete_log
            }),
    {
        let candidate = generator_scalar_mul_i64::<G>(discrete_log);
        proof {
            G::lemma_key_injective(candidate, *element);
        }
        if candidate.key() == element.key() {
            discrete_log
        } else {
            -discrete_log
        }
    }

    /// The sampling on `[-N/2, N/2)`: `Some` only with a logarithm of
    /// `element`. `None` when the operation counter would leave `u64`.
    #[verifier::rlimit(100)]
    #[verifier::spinoff_prover]
    pub fn solve_symmetric<G: KangarooGroup>(
        &self,
        element: G,
        n: i64,
        rng: &mut Xoshiro256PlusPlus,
    ) -> (r: Option<Solution>)
        requires
            128 <= n <= 0x2000_0000_0000_0000,
            order_ok::<G>(),
        ensures
            r matches Some(s) ==> solves(element, s.spec_discrete_log() as int),
            r matches Some(s) ==> -MAX_DISTANCE <= s.spec_discrete_log() <= MAX_DISTANCE,
            sota_run_gives(element, n as int, sota_result(r)),
    {
        let ghost x0 = some_dlog(element);
        let ghost ok = group_laws::<G>() && G::spec_gen_mul(x0) == element;
        let tame_high = n / 128;
        let wild_low = -n / 2;
        let wild_high = n / 2;

        let mut group_ops: u64 = 0;
        let mut tames: HashMap<u128, i64> = HashMap::new();
        let mut wilds: HashMap<u128, i64> = HashMap::new();
        let ghost mut signs: Map<u128, bool> = Map::empty();
        let ghost mut drawn: Seq<i64> = Seq::empty();
        assert(sota_after(element, drawn, 0) == Some((SotaState { tames: tames@, wilds: wilds@, ops: group_ops, turn: 0 })));
        loop
            invariant
                drawn.len() == group_ops,
                drawn.len() % 3 == 0,
                sota_draws_ok(drawn, n as int),
                sota_after(element, drawn, drawn.len()) == Some((SotaState { tames: tames@, wilds: wilds@, ops: group_ops, turn: 0 })),
                128 <= n <= 0x2000_0000_0000_0000,
                tame_high == n / 128,
                wild_low == -(n / 2),
                wild_high == n / 2,
                order_ok::<G>(),
                ok == (group_laws::<G>() && G::spec_gen_mul(x0) == element),
                x0 == some_dlog(element),
                group_laws::<G>() ==> keys_at::<G>(tames@, 0),
                ok ==> wild_keys_at::<G>(wilds@, signs, x0),
                forall|k: u128| #[trigger] wilds@.contains_key(k) ==> signs.contains_key(k),
                forall|k: u128| #[trigger]
                    tames@.contains_key(k) ==> -tame_high <= tames@[k] <= tame_high,
                wild_distances_ok(wilds@, n as int),
            decreases u64::MAX - group_ops,
        {
            let ghost sa = SotaState { tames: tames@, wilds: wilds@, ops: group_ops, turn: 0 };
            if group_ops > u64::MAX - 3 {
                proof {
                    lemma_sota_draws_push(drawn, 0, n as int);
                    lemma_sota_witness(element, n as int, drawn, 0, sa, None);
                }
                return None;
            }
            let mut tame_distance = random_range_i64(rng, 0, tame_high);
            let ghost j0 = tame_distance;
            proof {
                lemma_sota_draws_push(drawn, j0, n as int);
            }
            let mut tame = generator_scalar_mul_i64::<G>(tame_distance);
            if !tame.is_negation_map_representative() {
                proof {
                    if group_laws::<G>() {
                        assert(G::spec_gen_mul(tame_distance as int).spec_neg() == G::spec_gen_mul(
                            -tame_distance,
                        ));
                    }
                }
                tame_distance = -tame_distance;
                tame = tame.group_neg();
            }
            group_ops = group_ops + 1;
            let key = tame.key();
            match wilds.get(&key) {
                Some(found) => {
                    let wild_distance = *found;
                    let discrete_log = Self::collision_tw(tame_distance, wild_distance);
                    let answer = Self::settle_sign(&element, discrete_log);
                    proof {
                        if ok {
                            assert(0 + tame_distance == tame_distance);
                            lemma_same_key::<G>(tame_distance as int, pm(signs[key], x0)
                                + wild_distance);
                            lemma_tame_meets_wild(tame_distance as int, wild_distance as int,
                                pm(signs[key], x0), G::spec_order());
                        }
                        lemma_settle::<G>(element, x0, signs.index(key), discrete_log as int);
                    }
                    let res = Solution::new(answer, group_ops);
                    proof {
                        lemma_sota_witness(element, n as int, drawn, j0, sa, sota_result(Some(res)));
                    }
                    return Some(res);
                },
                None => {},
            }
            proof {
                if group_laws::<G>() {
                    lemma_keys_at_insert::<G>(tames@, 0, tame_distance);
                    assert(0 + tame_distance == tame_distance);
                }
            }
            tames.insert(key, tame_distance);
            proof {
                lemma_sota_next(element, drawn, j0, sa, SotaState { tames: tames@, wilds: wilds@, ops: group_ops, turn: 1 });
                drawn = drawn.push(j0);
            }

            let ghost ops_after_tame = group_ops;
            let mut round: u32 = 0;
            while round < 2
                invariant
                    128 <= n <= 0x2000_0000_0000_0000,
                    tame_high == n / 128,
                    wild_low == -(n / 2),
                    wild_high == n / 2,
                    order_ok::<G>(),
                    ok == (group_laws::<G>() && G::spec_gen_mul(x0) == element),
                    x0 == some_dlog(element),
                    group_laws::<G>() ==> keys_at::<G>(tames@, 0),
                    ok ==> wild_keys_at::<G>(wilds@, signs, x0),
                    forall|k: u128| #[trigger] wilds@.contains_key(k) ==> signs.contains_key(k),
                    forall|k: u128| #[trigger]
                        tames@.contains_key(k) ==> -tame_high <= tames@[k] <= tame_high,
                    wild_distances_ok(wilds@, n as int),
                    round <= 2,
                    group_ops + (2 - round) <= u64::MAX,
                    group_ops >= ops_after_tame,
                    drawn.len() == group_ops,
                    drawn.len() % 3 == (round + 1) % 3,
                    sota_draws_ok(drawn, n as int),
                    sota_after(element, drawn, drawn.len()) == Some((SotaState { tames: tames@, wilds: wilds@, ops: group_ops, turn: ((round + 1) % 3) as u8 })),
                decreases 2 - round,
            {
                let ghost sw = SotaState { tames: tames@, wilds: wilds@, ops: group_ops, turn: ((round + 1) % 3) as u8 };
                let raw = random_range_i64(rng, wild_low, wild_high);
                proof {
                    lemma_sota_draws_push(drawn, raw, n as int);
                }
                let mut wild_distance = raw / 2 * 2;
                let mut wild = element.group_add(&generator_scalar_mul_i64::<G>(wild_distance));
                let ghost mut positive = true;
                proof {
                    if ok {
                        assert(G::spec_gen_mul(x0).spec_add(G::spec_gen_mul(wild_distance as int))
                            == G::spec_gen_mul(x0 + wild_distance));
                    }
                }
                if !wild.is_negation_map_representative() {
                    proof {
                        if ok {
                            assert(G::spec_gen_mul(x0 + wild_distance).spec_neg()
                                == G::spec_gen_mul(-(x0 + wild_distance)));
                            assert(-(x0 + wild_distance) == -x0 + -wild_distance);
                        }
                        positive = false;
                    }
                    wild_distance = -wild_distance;
                    wild = wild.group_neg();
                }
                assert(ok ==> wild == G::spec_gen_mul(pm(positive, x0) + wild_distance));
                assert(wild_distance % 2 == 0);
                group_ops = group_ops + 1;
                let key = wild.key();
                match tames.get(&key) {
                    Some(found) => {
                        let td = *found;
                        let discrete_log = Self::collision_tw(td, wild_distance);
                        let answer = Self::settle_sign(&element, discrete_log);
                        proof {
                            if ok {
                                assert(0 + td == td);
                                lemma_same_key::<G>(td as int, pm(positive, x0) + wild_distance);
                                lemma_tame_meets_wild(td as int, wild_distance as int, pm(
                                    positive,
                                    x0,
                                ), G::spec_order());
                            }
                            lemma_settle::<G>(element, x0, positive, discrete_log as int);
                        }
                        let res = Solution::new(answer, group_ops);
                        proof {
                            lemma_sota_witness(element, n as int, drawn, raw, sw, sota_result(Some(res)));
                        }
                        return Some(res);
                    },
                    None => {},
                }
                match wilds.get(&key) {
                    Some(found) => {
                        let wild2_distance = *found;
                        if wild_distance != wild2_distance && wild_distance != -wild2_distance {
                            let discrete_log = Self::collision_w1w2(wild_distance, wild2_distance);
                            let answer = Self::settle_sign(&element, discrete_log);
                            proof {
                                if ok {
                                    lemma_same_key::<G>(pm(positive, x0) + wild_distance, pm(
                                        signs[key],
                                        x0,
                                    ) + wild2_distance);
                                    lemma_wild_meets_wild(x0, positive, signs[key],
                                        wild_distance as int, wild2_distance as int,
                                        G::spec_order());
                                }
                                lemma_settle::<G>(element, x0, positive, discrete_log as int);
                            }
                            let res = Solution::new(answer, group_ops);
                            proof {
                                lemma_sota_witness(element, n as int, drawn, raw, sw, sota_result(Some(res)));
                            }
                            return Some(res);
                        }
                    },
                    None => {},
                }
                proof {
                    signs = signs.insert(key, positive);
                }
                wilds.insert(key, wild_distance);
                proof {
                    lemma_sota_next(element, drawn, raw, sw, SotaState { tames: tames@, wilds: wilds@, ops: group_ops, turn: if round == 0 { 2u8 } else { 0u8 } });
                    drawn = drawn.push(raw);
                }
                round = round + 1;
            }
        }
    }
}

/// `tame == +-x + wild` modulo `q` gives `+-x == tame - wild`.
proof fn lemma_tame_meets_wild(tame: int, wild: int, signed_x: int, q: int)
    requires
        q > 0,
        tame % q == (signed_x + wild) % q,
    ensures
        signed_x % q == sota_tw_spec(tame, wild) % q,
{
    lemma_add_congruence(tame, signed_x + wild, -wild, q);
    assert(signed_x + wild + -wild == signed_x);
}

/// Two wild points `(+-x + d1) * G` and `(+-x + d2) * G` with even distances
/// of at most `2^61`, `d1 != d2`, coincide only for opposite signs; then
/// `+-x == (d2 - d1) / 2` for the sign of the first.
pub proof fn lemma_wild_meets_wild(x: int, pos1: bool, pos2: bool, d1: int, d2: int, q: int)
    requires
        q > 0x4000_0000_0000_0000,
        q % 2 == 1,
        -0x1000_0000_0000_0000 <= d1 <= 0x1000_0000_0000_0000,
        -0x1000_0000_0000_0000 <= d2 <= 0x1000_0000_0000_0000,
        d1 % 2 == 0,
        d2 % 2 == 0,
        d1 != d2,
        (pm(pos1, x) + d1) % q == (pm(pos2, x) + d2) % q,
    ensures
        pm(pos1, x) % q == sota_w1w2_spec(d1, d2) % q,
{
    let s = pm(pos1, x);
    if pos1 == pos2 {
        lemma_add_congruence(s + d1, s + d2, -s, q);
        assert(s + d1 + -s == d1 && s + d2 + -s == d2);
        lemma_exact(d1, d2, q);
    }
    assert(pm(pos2, x) == -s);
    let k = (d2 - d1) / 2;
    assert(2 * k == d2 - d1);
    lemma_add_congruence(s + d1, -s + d2, s - d1, q);
    assert(s + d1 + (s - d1) == 2 * s);
    assert(-s + d2 + (s - d1) == 2 * k);
    lemma_halve(s, k, q);
}

/// With `+-x == d` for a logarithm `x` of `element`, the settled sign gives
/// a logarithm: `d` if `d * G == element`, else `-d`.
pub proof fn lemma_settle<G: KangarooGroup>(element: G, x0: int, positive: bool, d: int)
    requires
        x0 == some_dlog(element),
        group_laws::<G>() && G::spec_gen_mul(x0) == element ==> pm(positive, x0) % G::spec_order()
            == d % G::spec_order(),
    ensures
        solves(
            element,
            if signed_gen_mul::<G>(d) == element {
                d
            } else {
                -d
            },
        ),
{
    let r = if signed_gen_mul::<G>(d) == element {
        d
    } else {
        -d
    };
    if group_laws::<G>() && G::spec_gen_mul(x0) == element {
        let q = G::spec_order();
        lemma_signed_gen_mul::<G>(d);
        if signed_gen_mul::<G>(d) == element {
            assert(G::spec_gen_mul(d) == G::spec_gen_mul(x0));
        } else {
            if positive {
                assert(G::spec_gen_mul(x0) == G::spec_gen_mul(d));
            }
            assert(pm(positive, x0) == -x0);
            lemma_neg_congruence(-x0, d, q);
            assert(-(-x0) == x0);
        }
    }
    lemma_solves_from_witness(element, r);
}

impl DiscreteLogSolver for SotaV2 {
    open spec fn accepts(&self, l: int, h: int) -> bool {
        h - l >= 128
    }

    fn solve<G: KangarooGroup>(
        &self,
        element: G,
        l: i64,
        h: i64,
        rng: &mut Xoshiro256PlusPlus,
    ) -> (r: Option<Solution>)
        ensures
            r matches Some(s) ==> sota_run_gives(
                element.spec_add(signed_gen_mul::<G>(l + (h - l) / 2).spec_neg()),
                h - l,
                Some(((s.spec_discrete_log() - (l + (h - l) / 2)) as i64, s.spec_group_ops())),
            ),
    {
        let n = h - l;
        let n_half = n / 2;
        let shift = l + n_half;
        let shifted = element.group_sub(&generator_scalar_mul_i64::<G>(shift));
        let solution = self.solve_symmetric(shifted, n, rng)?;
        let discrete_log = solution.discrete_log().checked_add(shift)?;
        proof {
            assert forall|x: int|
                #![trigger G::spec_gen_mul(x)]
                group_laws::<G>() && G::spec_gen_mul(x) == element && l <= x < h implies (
                discrete_log as int) % G::spec_order() == x % G::spec_order() by {
                lemma_shift::<G>(x, shift as int);
                lemma_unshift(solution.spec_discrete_log() as int, x, shift as int,
                    G::spec_order());
            }
            if has_log_in(element, l as int, h as int) {
                lemma_exact_near(element, l as int, h as int, shift as int, discrete_log as int);
            }
        }
        let res = Solution::new(discrete_log, solution.group_ops());
        proof {
            assert(sota_result(Some(solution)) == Some(((res.spec_discrete_log() - (l + (h - l) / 2)) as i64, res.spec_group_ops())));
        }
        Some(res)
    }
}

} // verus!
