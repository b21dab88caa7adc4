//! Four kangaroos with every point stored: two tame walks of opposite parity
//! from `0.3 N`, wild walks from `Q` and `-Q`, even jumps drawn afresh at
//! every step from `2 * [0, round(0.75 sqrt(N / 2)))`.
use std::collections::HashMap;
use vstd::prelude::*;

use crate::dlp::{
    has_log_in, lemma_exact_near, MAX_DISTANCE,
    collision_tw1_spec, collision_tw2_spec, collision_w1w2_spec, keys_at, lemma_keys_at_insert,
    lemma_shift, lemma_tame_wild1, lemma_tame_wild2, lemma_unshift, lemma_wild1_wild2, order_ok,
    solves, some_dlog, DiscreteLogSolver, Solution,
};
use crate::group::{generator_scalar_mul_i64, group_laws, signed_gen_mul, KangarooGroup};
use crate::num::round_sqrt_ratio;
use crate::rng::random_range_i64;
use rand::rngs::Xoshiro256PlusPlus;

verus! {

broadcast use vstd::std_specs::hash::group_hash_axioms;

/// The four-kangaroo solver with random even jumps.
#[derive(Default)]
pub struct PollardFourKangarooSolver;

/// The bound `m2 = round(2 * 0.375 * sqrt(N / 2)) = round(sqrt(9 N / 32))`
/// of the jump halves for an interval of width `n`.
pub open spec fn four_jump_bound_ok(m2: int, n: int) -> bool {
    &&& 1 <= m2 <= 0x1_0000_0000
    &&& (2 * m2 - 1) * (2 * m2 - 1) * 32 <= 4 * (9 * n)
    &&& 4 * (9 * n) < (2 * m2 + 1) * (2 * m2 + 1) * 32
}

/// The state of the four walks between two moves: points and distances of
/// the two tame and the two wild walks, every point each kind has visited,
/// the operation count and whose move is next (`0`, `1` tame, `2`, `3`
/// wild).
pub struct FourRState<G> {
    pub t1: G,
    pub t1d: i64,
    pub t2: G,
    pub t2d: i64,
    pub w1: G,
    pub w1d: i64,
    pub w2: G,
    pub w2d: i64,
    pub tames: Map<u128, i64>,
    pub wilds1: Map<u128, i64>,
    pub wilds2: Map<u128, i64>,
    pub ops: u64,
    pub turn: u8,
}

/// The outcome of one move: the run ends with an answer (logarithm and
/// operation count), or goes on.
pub enum FourRMove<G> {
    Done(Option<(i64, u64)>),
    Next(FourRState<G>),
}

/// The state before the first move on `element` and `[-N/2, N/2)`.
pub open spec fn four_r_start<G: KangarooGroup>(element: G, n: int) -> FourRState<G> {
    FourRState {
        t1: signed_gen_mul::<G>(3 * n / 10),
        t1d: (3 * n / 10) as i64,
        t2: signed_gen_mul::<G>(3 * n / 10 + 1),
        t2d: (3 * n / 10 + 1) as i64,
        w1: element,
        w1d: 0,
        w2: element.spec_neg(),
        w2d: 0,
        tames: Map::empty(),
        wilds1: Map::empty(),
        wilds2: Map::empty(),
        ops: 0,
        turn: 0,
    }
}

/// The answer `value` of a meeting whose distance difference is `diff`,
/// when `diff` fits in `i64`.
pub open spec fn four_r_answer(diff: int, value: int, ops: u64) -> Option<(i64, u64)> {
    if i64::MIN <= diff <= i64::MAX {
        Some((value as i64, ops))
    } else {
        None
    }
}

/// A move of a tame walk (turn `0` or `1`) with the draw `j`.
pub open spec fn four_r_tame_move<G: KangarooGroup>(s: FourRState<G>, j: i64) -> FourRMove<G> {
    let ops = (s.ops + 1) as u64;
    let jd = 2 * j;
    let p = if s.turn == 0 { s.t1 } else { s.t2 };
    let td = (if s.turn == 0 { s.t1d } else { s.t2d }) + jd;
    let t = p.spec_add(signed_gen_mul::<G>(jd));
    let k = t.spec_key();
    if (s.turn == 0 && s.ops > u64::MAX - 4) || td > MAX_DISTANCE {
        FourRMove::Done(None)
    } else if s.wilds1.contains_key(k) {
        FourRMove::Done(four_r_answer(td - s.wilds1[k], collision_tw1_spec(td, s.wilds1[k] as int), ops))
    } else if s.wilds2.contains_key(k) {
        FourRMove::Done(four_r_answer(s.wilds2[k] - td, collision_tw2_spec(td, s.wilds2[k] as int), ops))
    } else if s.turn == 0 {
        FourRMove::Next(FourRState { t1: t, t1d: td as i64, ops, turn: 1, tames: s.tames.insert(k, td as i64), ..s })
    } else {
        FourRMove::Next(FourRState { t2: t, t2d: td as i64, ops, turn: 2, tames: s.tames.insert(k, td as i64), ..s })
    }
}

/// A move of the wild walk from `Q` with the draw `j`.
pub open spec fn four_r_wild1_move<G: KangarooGroup>(s: FourRState<G>, j: i64) -> FourRMove<G> {
    let ops = (s.ops + 1) as u64;
    let wd = s.w1d + 2 * j;
    let w = s.w1.spec_add(signed_gen_mul::<G>(2 * j));
    let k = w.spec_key();
    if wd > MAX_DISTANCE {
        FourRMove::Done(None)
    } else if s.tames.contains_key(k) {
        FourRMove::Done(four_r_answer(s.tames[k] - wd, collision_tw1_spec(s.tames[k] as int, wd), ops))
    } else if s.wilds2.contains_key(k) {
        FourRMove::Done(four_r_answer(s.wilds2[k] - wd, collision_w1w2_spec(wd, s.wilds2[k] as int), ops))
    } else {
        FourRMove::Next(FourRState { w1: w, w1d: wd as i64, ops, turn: 3, wilds1: s.wilds1.insert(k, wd as i64), ..s })
    }
}

/// A move of the wild walk from `-Q` with the draw `j`.
pub open spec fn four_r_wild2_move<G: KangarooGroup>(s: FourRState<G>, j: i64) -> FourRMove<G> {
    let ops = (s.ops + 1) as u64;
    let wd = s.w2d + 2 * j;
    let w = s.w2.spec_add(signed_gen_mul::<G>(2 * j));
    let k = w.spec_key();
    if wd > MAX_DISTANCE {
        FourRMove::Done(None)
    } else if s.tames.contains_key(k) {
        FourRMove::Done(four_r_answer(wd - s.tames[k], collision_tw2_spec(s.tames[k] as int, wd), ops))
    } else if s.wilds1.contains_key(k) {
        FourRMove::Done(four_r_answer(wd - s.wilds1[k], collision_w1w2_spec(s.wilds1[k] as int, wd), ops))
    } else {
        FourRMove::Next(FourRState { w2: w, w2d: wd as i64, ops, turn: 0, wilds2: s.wilds2.insert(k, wd as i64), ..s })
    }
}

/// One move of the walk whose turn it is, with the draw `j`: a jump by
/// `2 j` (one group operation), then a lookup of its point among the
/// points of the other kind (tame against first, then second wild; wild
/// against tame, then the other wild); on a match the run ends, else the
/// point is recorded. The run gives up before the first tame move of a
/// round when the counter is within `4` of `u64::MAX`, and when a
/// distance would pass `MAX_DISTANCE`.
pub open spec fn four_r_move<G: KangarooGroup>(s: FourRState<G>, j: i64) -> FourRMove<G> {
    if s.turn == 0 || s.turn == 1 {
        four_r_tame_move(s, j)
    } else if s.turn == 2 {
        four_r_wild1_move(s, j)
    } else {
        four_r_wild2_move(s, j)
    }
}

/// The state after the first `k` moves with the draws `draws`, while none
/// of them ended the run.
pub open spec fn four_r_after<G: KangarooGroup>(s0: FourRState<G>, draws: Seq<i64>, k: nat) -> Option<FourRState<G>>
    decreases k,
{
    if k == 0 {
        Some(s0)
    } else {
        match four_r_after(s0, draws, (k - 1) as nat) {
            Some(s) => match four_r_move(s, draws[k - 1]) {
                FourRMove::Next(s2) => Some(s2),
                FourRMove::Done(_) => None,
            },
            None => None,
        }
    }
}

/// The run on `element` and `[-N/2, N/2)`, with draws below the bound
/// `m2` of the jump halves, ends at its last draw with `v`.
pub open spec fn four_r_run_gives<G: KangarooGroup>(element: G, n: int, v: Option<(i64, u64)>) -> bool {
    exists|m: int, draws: Seq<i64>|
        #![trigger four_jump_bound_ok(m, n), four_r_after(four_r_start(element, n), draws, (draws.len() - 1) as nat)]
        four_jump_bound_ok(m, n) && draws.len() >= 1 && (forall|i: int|
            0 <= i < draws.len() ==> 0 <= #[trigger] draws[i] < m) && (four_r_after(
            four_r_start(element, n),
            draws,
            (draws.len() - 1) as nat,
        ) matches Some(s) && four_r_move(s, draws.last()) == FourRMove::<G>::Done(v))
}

/// From the start, the state after `k` moves that all went on has counted
/// `k` operations, one per jump of any of the four walks; the walks take
/// turns (tame, tame, wild from `Q`, wild from `-Q`) and the counter stays
/// below its limit.
pub proof fn lemma_four_r_after_count<G: KangarooGroup>(element: G, n: int, draws: Seq<i64>, k: nat)
    ensures
        four_r_after(four_r_start(element, n), draws, k) matches Some(s) ==> s.ops == k && (s.turn == 0
            || (s.turn == 1 && s.ops <= u64::MAX - 3) || (s.turn == 2 && s.ops <= u64::MAX - 2) || (
        s.turn == 3 && s.ops <= u64::MAX - 1)),
    decreases k,
{
    if k > 0 {
        lemma_four_r_after_count(element, n, draws, (k - 1) as nat);
    }
}

/// The run on `element` and `[-N/2, N/2)` ends with the answer `v` after
/// exactly `v.1` draws below a jump bound: the count is the number of jumps.
pub open spec fn four_r_counted_run<G: KangarooGroup>(element: G, n: int, v: (i64, u64)) -> bool {
    exists|m: int, draws: Seq<i64>|
        #![trigger four_jump_bound_ok(m, n), four_r_after(four_r_start(element, n), draws, (draws.len() - 1) as nat)]
        four_jump_bound_ok(m, n) && draws.len() >= 1 && (forall|i: int|
            0 <= i < draws.len() ==> 0 <= #[trigger] draws[i] < m) && (four_r_after(
            four_r_start(element, n),
            draws,
            (draws.len() - 1) as nat,
        ) matches Some(s) && four_r_move(s, draws.last()) == FourRMove::<G>::Done(Some(v)))
            && v.1 == draws.len()
}

/// Every jump counts one group operation, whichever of the two tame and two
/// wild walks makes it: an answer reports as many operations as the four
/// walks made jumps until two of them met.
pub proof fn lemma_four_r_run_count<G: KangarooGroup>(element: G, n: int, v: (i64, u64))
    requires
        four_r_run_gives(element, n, Some(v)),
    ensures
        four_r_counted_run(element, n, v),
{
    let (m, draws) = choose|m: int, draws: Seq<i64>|
        #![trigger four_jump_bound_ok(m, n), four_r_after(four_r_start(element, n), draws, (draws.len() - 1) as nat)]
        four_jump_bound_ok(m, n) && draws.len() >= 1 && (forall|i: int|
            0 <= i < draws.len() ==> 0 <= #[trigger] draws[i] < m) && (four_r_after(
            four_r_start(element, n),
            draws,
            (draws.len() - 1) as nat,
        ) matches Some(s) && four_r_move(s, draws.last()) == FourRMove::<G>::Done(Some(v)));
    lemma_four_r_after_count(element, n, draws, (draws.len() - 1) as nat);
    assert(v.1 == draws.len());
}

/// The run after `k` moves depends only on the first `k` draws.
pub proof fn lemma_four_r_after_prefix<G: KangarooGroup>(s0: FourRState<G>, d: Seq<i64>, j: i64, k: nat)
    requires
        k <= d.len(),
    ensures
        four_r_after(s0, d.push(j), k) == four_r_after(s0, d, k),
    decreases k,
{
    if k > 0 {
        lemma_four_r_after_prefix(s0, d, j, (k - 1) as nat);
        assert(d.push(j)[k - 1] == d[k - 1]);
    }
}

/// A move that ends the run at the next draw `j` gives its result.
pub proof fn lemma_four_r_witness<G: KangarooGroup>(
    element: G,
    n: int,
    m: int,
    drawn: Seq<i64>,
    j: i64,
    cur: FourRState<G>,
    v: Option<(i64, u64)>,
)
    requires
        four_jump_bound_ok(m, n),
        forall|i: int| 0 <= i < drawn.len() ==> 0 <= #[trigger] drawn[i] < m,
        0 <= j < m,
        four_r_after(four_r_start(element, n), drawn, drawn.len()) == Some(cur),
        four_r_move(cur, j) == FourRMove::<G>::Done(v),
    ensures
        four_r_run_gives(element, n, v),
{
    let s0 = four_r_start(element, n);
    lemma_four_r_after_prefix(s0, drawn, j, drawn.len());
    let d = drawn.push(j);
    assert(d.last() == j);
    assert((d.len() - 1) as nat == drawn.len());
    assert(four_r_after(s0, d, (d.len() - 1) as nat) == Some(cur));
    assert forall|i: int| 0 <= i < d.len() implies 0 <= #[trigger] d[i] < m by {
        if i < drawn.len() {
            assert(d[i] == drawn[i]);
        }
    }
}

/// A move that goes on at the next draw `j` gives the state after it.
pub proof fn lemma_four_r_next<G: KangarooGroup>(
    s0: FourRState<G>,
    drawn: Seq<i64>,
    j: i64,
    cur: FourRState<G>,
    next: FourRState<G>,
)
    requires
        four_r_after(s0, drawn, drawn.len()) == Some(cur),
        four_r_move(cur, j) == FourRMove::Next(next),
    ensures
        four_r_after(s0, drawn.push(j), drawn.push(j).len()) == Some(next),
{
    lemma_four_r_after_prefix(s0, drawn, j, drawn.len());
    assert(drawn.push(j)[drawn.len() as int] == j);
}

/// The logarithm and count of a solution, if any.
pub open spec fn four_r_result(r: Option<Solution>) -> Option<(i64, u64)> {
    match r {
        Some(s) => Some((s.spec_discrete_log(), s.spec_group_ops())),
        None => None,
    }
}

/// The state made of the walks' current values.
spec fn four_r_state_of<G>(
    t1: G,
    t1d: i64,
    t2: G,
    t2d: i64,
    w1: G,
    w1d: i64,
    w2: G,
    w2d: i64,
    tames: Map<u128, i64>,
    wilds1: Map<u128, i64>,
    wilds2: Map<u128, i64>,
    ops: u64,
    turn: u8,
) -> FourRState<G> {
    FourRState { t1, t1d, t2, t2d, w1, w1d, w2, w2d, tames, wilds1, wilds2, ops, turn }
}

impl PollardFourKangarooSolver {
    fn collision_tw1(tame_distance: i64, wild1_distance: i64) -> (r: Option<i64>)
        ensures
            r matches Some(v) ==> v == collision_tw1_spec(tame_distance as int, wild1_distance as int),
            r is None <==> !(i64::MIN <= tame_distance - wild1_distance <= i64::MAX),
    {
        tame_distance.checked_sub(wild1_distance)
    }

    fn collision_tw2(tame_distance: i64, wild2_distance: i64) -> (r: Option<i64>)
        ensures
            r matches Some(v) ==> v == collision_tw2_spec(tame_distance as int, wild2_distance as int),
            r is None <==> !(i64::MIN <= wild2_distance - tame_distance <= i64::MAX),
    {
        wild2_distance.checked_sub(tame_distance)
    }

    fn collision_w1w2(wild1_distance: i64, wild2_distance: i64) -> (r: Option<i64>)
        ensures
            r matches Some(v) ==> v == collision_w1w2_spec(wild1_distance as int, wild2_distance as int),
            r is None <==> !(i64::MIN <= wild2_distance - wild1_distance <= i64::MAX),
    {
        let d = wild2_distance.checked_sub(wild1_distance)?;
        Some(d / 2)
    }

    /// The bound `round(sqrt(9 N / 32))` of the jump halves.
    pub fn jump_bound(n: i64) -> (m2: i64)
        requires
            1 <= n <= 0x2000_0000_0000_0000,
        ensures
            four_jump_bound_ok(m2 as int, n as int),
    {
        let r = round_sqrt_ratio(9 * n as u128, 32);
        assert(r >= 1 && r <= 0x1_0000_0000) by (nonlinear_arith)
            requires
                r > 0 ==> (2 * r - 1) * (2 * r - 1) * 32 <= 4 * (9 * n),
                4 * (9 * n) < (2 * r + 1) * (2 * r + 1) * 32,
                1 <= n <= 0x2000_0000_0000_0000,
        {
            if r == 0 {
                assert(4 * (9 * n) < 32);
            }
            if r > 0x1_0000_0000 {
                assert((2 * r - 1) * (2 * r - 1) > 0x1_0000_0000 * 0x1_0000_0000);
            }
        }
        r as i64
    }

    /// A draw `j` from `[0, m2)`, the even jump `2 j` and its point.
    fn even_jump<G: KangarooGroup>(m2: i64, rng: &mut Xoshiro256PlusPlus) -> (r: (i64, i64, G))
        requires
            1 <= m2 <= 0x1_0000_0000,
            order_ok::<G>(),
        ensures
            0 <= r.0 < m2,
            r.1 == 2 * r.0,
            r.2 == signed_gen_mul::<G>(r.1 as int),
            group_laws::<G>() ==> r.2 == G::spec_gen_mul(r.1 as int),
    {
        let j = random_range_i64(rng, 0, m2);
        let d = j * 2;
        (j, d, generator_scalar_mul_i64::<G>(d))
    }

    /// The walks on `[-N/2, N/2)`: `Some` only with a logarithm of `element`.
    /// `None` when the counter would leave `u64` or a distance would pass
    /// `MAX_DISTANCE`.
    #[verifier::rlimit(100)]
    #[verifier::spinoff_prover]
    pub fn solve_symmetric<G: KangarooGroup>(
        &self,
        element: G,
        n: i64,
        rng: &mut Xoshiro256PlusPlus,
    ) -> (r: Option<Solution>)
        requires
            1 <= n <= 0x2000_0000_0000_0000,
            order_ok::<G>(),
        ensures
            r matches Some(s) ==> solves(element, s.spec_discrete_log() as int),
            r matches Some(s) ==> -MAX_DISTANCE <= s.spec_discrete_log() <= MAX_DISTANCE,
            four_r_run_gives(element, n as int, four_r_result(r)),
    {
        let ghost x0 = some_dlog(element);
        let ghost ok = group_laws::<G>() && G::spec_gen_mul(x0) == element;
        let m2 = Self::jump_bound(n);

        let mut group_ops: u64 = 0;
        let mut tame1_distance = 3 * n / 10;
        let mut tame1 = generator_scalar_mul_i64::<G>(tame1_distance);
        let mut tame2_distance = tame1_distance + 1;
        let mut tame2 = generator_scalar_mul_i64::<G>(tame2_distance);
        let mut wild1_distance: i64 = 0;
        let mut wild1 = element;
        let mut wild2_distance: i64 = 0;
        let mut wild2 = element.group_neg();

        let mut tames: HashMap<u128, i64> = HashMap::new();
        let mut wilds1: HashMap<u128, i64> = HashMap::new();
        let mut wilds2: HashMap<u128, i64> = HashMap::new();
        proof {
            if ok {
                assert(G::spec_gen_mul(x0).spec_neg() == G::spec_gen_mul(-x0));
                assert(x0 + 0 == x0 && -x0 + 0 == -x0);
            }
        }

        let ghost s0 = four_r_start(element, n as int);
        let ghost mut drawn: Seq<i64> = Seq::empty();
        assert(four_r_after(s0, drawn, 0) == Some(four_r_state_of(tame1, tame1_distance, tame2, tame2_distance, wild1, wild1_distance, wild2, wild2_distance, tames@, wilds1@, wilds2@, group_ops, 0)));

        loop
            invariant
                four_jump_bound_ok(m2 as int, n as int),
                s0 == four_r_start(element, n as int),
                drawn.len() == group_ops,
                forall|i: int| 0 <= i < drawn.len() ==> 0 <= #[trigger] drawn[i] < m2,
                four_r_after(s0, drawn, drawn.len()) == Some(four_r_state_of(tame1, tame1_distance, tame2, tame2_distance, wild1, wild1_distance, wild2, wild2_distance, tames@, wilds1@, wilds2@, group_ops, 0)),
                order_ok::<G>(),
                ok == (group_laws::<G>() && G::spec_gen_mul(x0) == element),
                x0 == some_dlog(element),
                wild1_distance % 2 == 0,
                wild2_distance % 2 == 0,
                group_laws::<G>() ==> tame1 == G::spec_gen_mul(tame1_distance as int),
                group_laws::<G>() ==> tame2 == G::spec_gen_mul(tame2_distance as int),
                ok ==> wild1 == G::spec_gen_mul(x0 + wild1_distance),
                ok ==> wild2 == G::spec_gen_mul(-x0 + wild2_distance),
                group_laws::<G>() ==> keys_at::<G>(tames@, 0),
                ok ==> keys_at::<G>(wilds1@, x0),
                ok ==> keys_at::<G>(wilds2@, -x0),
                0 <= tame1_distance <= MAX_DISTANCE,
                0 <= tame2_distance <= MAX_DISTANCE,
                0 <= wild1_distance <= MAX_DISTANCE,
                0 <= wild2_distance <= MAX_DISTANCE,
                forall|k: u128| #[trigger] tames@.contains_key(k) ==> 0 <= tames@[k] <= MAX_DISTANCE,
                forall|k: u128| #[trigger] wilds1@.contains_key(k) ==> 0 <= wilds1@[k] <= MAX_DISTANCE,
                forall|k: u128| #[trigger] wilds2@.contains_key(k) ==> 0 <= wilds2@[k] <= MAX_DISTANCE,
                forall|k: u128| #[trigger] wilds1@.contains_key(k) ==> wilds1@[k] % 2 == 0,
                forall|k: u128| #[trigger] wilds2@.contains_key(k) ==> wilds2@[k] % 2 == 0,
            decreases u64::MAX - group_ops,
        {
            let ghost sa = four_r_state_of(tame1, tame1_distance, tame2, tame2_distance, wild1, wild1_distance, wild2, wild2_distance, tames@, wilds1@, wilds2@, group_ops, 0);
            if group_ops > u64::MAX - 4 {
                proof {
                    lemma_four_r_witness(element, n as int, m2 as int, drawn, 0, sa, None);
                }
                return None;
            }
            // first tame kangaroo
            let (tame1_raw, tame1_jump_distance, tame1_jump) = Self::even_jump::<G>(m2, rng);
            proof {
                if group_laws::<G>() {
                    assert(G::spec_gen_mul(tame1_distance as int).spec_add(G::spec_gen_mul(
                        tame1_jump_distance as int,
                    )) == G::spec_gen_mul(tame1_distance + tame1_jump_distance));
                }
            }
            tame1_distance = tame1_distance + tame1_jump_distance;
            if tame1_distance > MAX_DISTANCE {
                proof {
                    lemma_four_r_witness(element, n as int, m2 as int, drawn, tame1_raw, sa, None);
                }
                return None;
            }
            tame1 = tame1.group_add(&tame1_jump);
            group_ops = group_ops + 1;
            let key = tame1.key();
            match wilds1.get(&key) {
                Some(found) => {
                    let w1d = *found;
                    let discrete_log = match Self::collision_tw1(tame1_distance, w1d) {
                        Some(v) => v,
                        None => {
                            proof {
                                lemma_four_r_witness(element, n as int, m2 as int, drawn, tame1_raw, sa, None);
                            }
                            return None;
                        },
                    };
                    proof {
                        lemma_tame_wild1::<G>(element, x0, tame1_distance as int, w1d as int);
                    }
                    let res = Solution::new(discrete_log, group_ops);
                    proof {
                        lemma_four_r_witness(element, n as int, m2 as int, drawn, tame1_raw, sa, four_r_result(Some(res)));
                    }
                    return Some(res);
                },
                None => {},
            }
            match wilds2.get(&key) {
                Some(found) => {
                    let w2d = *found;
                    let discrete_log = match Self::collision_tw2(tame1_distance, w2d) {
                        Some(v) => v,
                        None => {
                            proof {
                                lemma_four_r_witness(element, n as int, m2 as int, drawn, tame1_raw, sa, None);
                            }
                            return None;
                        },
                    };
                    proof {
                        lemma_tame_wild2::<G>(element, x0, tame1_distance as int, w2d as int);
                    }
                    let res = Solution::new(discrete_log, group_ops);
                    proof {
                        lemma_four_r_witness(element, n as int, m2 as int, drawn, tame1_raw, sa, four_r_result(Some(res)));
                    }
                    return Some(res);
                },
                None => {},
            }
            proof {
                if group_laws::<G>() {
                    lemma_keys_at_insert::<G>(tames@, 0, tame1_distance);
                    assert(0 + tame1_distance == tame1_distance);
                }
            }
            tames.insert(key, tame1_distance);
            proof {
                lemma_four_r_next(s0, drawn, tame1_raw, sa, four_r_state_of(tame1, tame1_distance, tame2, tame2_distance, wild1, wild1_distance, wild2, wild2_distance, tames@, wilds1@, wilds2@, group_ops, 1));
                drawn = drawn.push(tame1_raw);
            }

            let ghost sb = four_r_state_of(tame1, tame1_distance, tame2, tame2_distance, wild1, wild1_distance, wild2, wild2_distance, tames@, wilds1@, wilds2@, group_ops, 1);
            // second tame kangaroo
            let (tame2_raw, tame2_jump_distance, tame2_jump) = Self::even_jump::<G>(m2, rng);
            proof {
                if group_laws::<G>() {
                    assert(G::spec_gen_mul(tame2_distance as int).spec_add(G::spec_gen_mul(
                        tame2_jump_distance as int,
                    )) == G::spec_gen_mul(tame2_distance + tame2_jump_distance));
                }
            }
            tame2_distance = tame2_distance + tame2_jump_distance;
            if tame2_distance > MAX_DISTANCE {
                proof {
                    lemma_four_r_witness(element, n as int, m2 as int, drawn, tame2_raw, sb, None);
                }
                return None;
            }
            tame2 = tame2.group_add(&tame2_jump);
            group_ops = group_ops + 1;
            let key = tame2.key();
            match wilds1.get(&key) {
                Some(found) => {
                    let w1d = *found;
                    let discrete_log = match Self::collision_tw1(tame2_distance, w1d) {
                        Some(v) => v,
                        None => {
                            proof {
                                lemma_four_r_witness(element, n as int, m2 as int, drawn, tame2_raw, sb, None);
                            }
                            return None;
                        },
                    };
                    proof {
                        lemma_tame_wild1::<G>(element, x0, tame2_distance as int, w1d as int);
                    }
                    let res = Solution::new(discrete_log, group_ops);
                    proof {
                        lemma_four_r_witness(element, n as int, m2 as int, drawn, tame2_raw, sb, four_r_result(Some(res)));
                    }
                    return Some(res);
                },
                None => {},
            }
            match wilds2.get(&key) {
                Some(found) => {
                    let w2d = *found;
                    let discrete_log = match Self::collision_tw2(tame2_distance, w2d) {
                        Some(v) => v,
                        None => {
                            proof {
                                lemma_four_r_witness(element, n as int, m2 as int, drawn, tame2_raw, sb, None);
                            }
                            return None;
                        },
                    };
                    proof {
                        lemma_tame_wild2::<G>(element, x0, tame2_distance as int, w2d as int);
                    }
                    let res = Solution::new(discrete_log, group_ops);
                    proof {
                        lemma_four_r_witness(element, n as int, m2 as int, drawn, tame2_raw, sb, four_r_result(Some(res)));
                    }
                    return Some(res);
                },
                None => {},
            }
            proof {
                if group_laws::<G>() {
                    lemma_keys_at_insert::<G>(tames@, 0, tame2_distance);
                    assert(0 + tame2_distance == tame2_distance);
                }
            }
            tames.insert(key, tame2_distance);
            proof {
                lemma_four_r_next(s0, drawn, tame2_raw, sb, four_r_state_of(tame1, tame1_distance, tame2, tame2_distance, wild1, wild1_distance, wild2, wild2_distance, tames@, wilds1@, wilds2@, group_ops, 2));
                drawn = drawn.push(tame2_raw);
            }

            let ghost sc = four_r_state_of(tame1, tame1_distance, tame2, tame2_distance, wild1, wild1_distance, wild2, wild2_distance, tames@, wilds1@, wilds2@, group_ops, 2);
            // wild kangaroo from Q
            let (wild1_raw, wild1_jump_distance, wild1_jump) = Self::even_jump::<G>(m2, rng);
            proof {
                if ok {
                    assert(G::spec_gen_mul(x0 + wild1_distance).spec_add(G::spec_gen_mul(
                        wild1_jump_distance as int,
                    )) == G::spec_gen_mul(x0 + wild1_distance + wild1_jump_distance));
                }
            }
            wild1_distance = wild1_distance + wild1_jump_distance;
            if wild1_distance > MAX_DISTANCE {
                proof {
                    lemma_four_r_witness(element, n as int, m2 as int, drawn, wild1_raw, sc, None);
                }
                return None;
            }
            wild1 = wild1.group_add(&wild1_jump);
            group_ops = group_ops + 1;
            let key = wild1.key();
            match tames.get(&key) {
                Some(found) => {
                    let td = *found;
                    let discrete_log = match Self::collision_tw1(td, wild1_distance) {
                        Some(v) => v,
                        None => {
                            proof {
                                lemma_four_r_witness(element, n as int, m2 as int, drawn, wild1_raw, sc, None);
                            }
                            return None;
                        },
                    };
                    proof {
                        lemma_tame_wild1::<G>(element, x0, td as int, wild1_distance as int);
                    }
                    let res = Solution::new(discrete_log, group_ops);
                    proof {
                        lemma_four_r_witness(element, n as int, m2 as int, drawn, wild1_raw, sc, four_r_result(Some(res)));
                    }
                    return Some(res);
                },
                None => {},
            }
            match wilds2.get(&key) {
                Some(found) => {
                    let w2d = *found;
                    let discrete_log = match Self::collision_w1w2(wild1_distance, w2d) {
                        Some(v) => v,
                        None => {
                            proof {
                                lemma_four_r_witness(element, n as int, m2 as int, drawn, wild1_raw, sc, None);
                            }
                            return None;
                        },
                    };
                    proof {
                        lemma_wild1_wild2::<G>(element, x0, wild1_distance as int, w2d as int);
                    }
                    let res = Solution::new(discrete_log, group_ops);
                    proof {
                        lemma_four_r_witness(element, n as int, m2 as int, drawn, wild1_raw, sc, four_r_result(Some(res)));
                    }
                    return Some(res);
                },
                None => {},
            }
            proof {
                if ok {
                    lemma_keys_at_insert::<G>(wilds1@, x0, wild1_distance);
                }
            }
            wilds1.insert(key, wild1_distance);
            proof {
                lemma_four_r_next(s0, drawn, wild1_raw, sc, four_r_state_of(tame1, tame1_distance, tame2, tame2_distance, wild1, wild1_distance, wild2, wild2_distance, tames@, wilds1@, wilds2@, group_ops, 3));
                drawn = drawn.push(wild1_raw);
            }

            let ghost sd = four_r_state_of(tame1, tame1_distance, tame2, tame2_distance, wild1, wild1_distance, wild2, wild2_distance, tames@, wilds1@, wilds2@, group_ops, 3);
            // wild kangaroo from -Q
            let (wild2_raw, wild2_jump_distance, wild2_jump) = Self::even_jump::<G>(m2, rng);
            proof {
                if ok {
                    assert(G::spec_gen_mul(-x0 + wild2_distance).spec_add(G::spec_gen_mul(
                        wild2_jump_distance as int,
                    )) == G::spec_gen_mul(-x0 + wild2_distance + wild2_jump_distance));
                }
            }
            wild2_distance = wild2_distance + wild2_jump_distance;
            if wild2_distance > MAX_DISTANCE {
                proof {
                    lemma_four_r_witness(element, n as int, m2 as int, drawn, wild2_raw, sd, None);
                }
                return None;
            }
            wild2 = wild2.group_add(&wild2_jump);
            group_ops = group_ops + 1;
            let key = wild2.key();
            match tames.get(&key) {
                Some(found) => {
                    let td = *found;
                    let discrete_log = match Self::collision_tw2(td, wild2_distance) {
                        Some(v) => v,
                        None => {
                            proof {
                                lemma_four_r_witness(element, n as int, m2 as int, drawn, wild2_raw, sd, None);
                            }
                            return None;
                        },
                    };
                    proof {
                        lemma_tame_wild2::<G>(element, x0, td as int, wild2_distance as int);
                    }
                    let res = Solution::new(discrete_log, group_ops);
                    proof {
                        lemma_four_r_witness(element, n as int, m2 as int, drawn, wild2_raw, sd, four_r_result(Some(res)));
                    }
                    return Some(res);
                },
                None => {},
            }
            match wilds1.get(&key) {
                Some(found) => {
                    let w1d = *found;
                    let discrete_log = match Self::collision_w1w2(w1d, wild2_distance) {
                        Some(v) => v,
                        None => {
                            proof {
                                lemma_four_r_witness(element, n as int, m2 as int, drawn, wild2_raw, sd, None);
                            }
                            return None;
                        },
                    };
                    proof {
                        lemma_wild1_wild2::<G>(element, x0, w1d as int, wild2_distance as int);
                    }
                    let res = Solution::new(discrete_log, group_ops);
                    proof {
                        lemma_four_r_witness(element, n as int, m2 as int, drawn, wild2_raw, sd, four_r_result(Some(res)));
                    }
                    return Some(res);
                },
                None => {},
            }
            proof {
                if ok {
                    lemma_keys_at_insert::<G>(wilds2@, -x0, wild2_distance);
                }
            }
            wilds2.insert(key, wild2_distance);
            proof {
                lemma_four_r_next(s0, drawn, wild2_raw, sd, four_r_state_of(tame1, tame1_distance, tame2, tame2_distance, wild1, wild1_distance, wild2, wild2_distance, tames@, wilds1@, wilds2@, group_ops, 0));
                drawn = drawn.push(wild2_raw);
            }
        }
    }
}

impl DiscreteLogSolver for PollardFourKangarooSolver {
    open spec fn accepts(&self, l: int, h: int) -> bool {
        true
    }

    fn solve<G: KangarooGroup>(
        &self,
        element: G,
        l: i64,
        h: i64,
        rng: &mut Xoshiro256PlusPlus,
    ) -> (r: Option<Solution>)
        ensures
            r matches Some(s) ==> four_r_run_gives(
                element.spec_add(signed_gen_mul::<G>(l + (h - l) / 2).spec_neg()),
                h - l,
                Some(((s.spec_discrete_log() - (l + (h - l) / 2)) as i64, s.spec_group_ops())),
            ),
    {
        let n = h - l;
        let n_half = n / 2;
        let shift = l + n_half;
        let shifted = element.group_sub(&generator_scalar_mul_i64::<G>(shift));
        let solution = self.solve_symmetric(shifted, n, rng)?;
        let discrete_log = solution.discrete_log().checked_add(shift)?;
        proof {
            assert forall|x: int|
                #![trigger G::spec_gen_mul(x)]
                group_laws::<G>() && G::spec_gen_mul(x) == element && l <= x < h implies (
                discrete_log as int) % G::spec_order() == x % G::spec_order() by {
                lemma_shift::<G>(x, shift as int);
                lemma_unshift(solution.spec_discrete_log() as int, x, shift as int,
                    G::spec_order());
            }
            if has_log_in(element, l as int, h as int) {
                lemma_exact_near(element, l as int, h as int, shift as int, discrete_log as int);
            }
        }
        let res = Solution::new(discrete_log, solution.group_ops());
        proof {
            assert(four_r_result(Some(solution)) == Some(((res.spec_discrete_log() - (l + (h - l) / 2)) as i64, res.spec_group_ops())));
        }
        Some(res)
    }
}

} // verus!
