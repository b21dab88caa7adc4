//! Four kangaroos with distinguished points: two tame walks of opposite
//! parity from `0.3 N`, wild walks from `Q` and `-Q`, even jumps from a
//! table of mean `0.375 sqrt(N / 2)`.
use std::collections::HashMap;
use vstd::prelude::*;

use crate::dlp::jump::{
    generate_uniform_jump_table_distances, is_uniform_jump_table, jump_bounds_ok, jump_table, jumps_ok,
    lemma_table_sum_bound,
    uniform_jump_table_bounds,
};
use crate::dlp::{
    has_log_in, lemma_exact_near, MAX_DISTANCE,
    collision_tw1_spec, collision_tw2_spec, collision_w1w2_spec, keys_at,
    lemma_keys_at_insert, lemma_shift, lemma_tame_wild1, lemma_tame_wild2, lemma_unshift,
    lemma_wild1_wild2, order_ok, solves, some_dlog, DiscreteLogSolver, Solution,
};
use crate::group::{generator_scalar_mul_i64, group_laws, signed_gen_mul, KangarooGroup};
use rand::rngs::Xoshiro256PlusPlus;

verus! {

broadcast use vstd::std_specs::hash::group_hash_axioms;

/// The four-kangaroo solver with `2^bucket_bits` jumps and distinguished
/// points of `dp_bits` bits.
pub struct PollardFourKangarooSolver {
    bucket_bits: u32,
    dp_bits: u32,
}

/// The state of the four walks between two moves: points and distances of
/// the two tame and the two wild walks, the tables of distinguished points
/// (one for both tame walks), the operation count and whose move is next
/// (`0`, `1` tame, `2`, `3` wild).
pub struct FourState<G> {
    pub t1: G,
    pub t1d: i64,
    pub t2: G,
    pub t2d: i64,
    pub w1: G,
    pub w1d: i64,
    pub w2: G,
    pub w2d: i64,
    pub tames: Map<u128, i64>,
    pub wilds1: Map<u128, i64>,
    pub wilds2: Map<u128, i64>,
    pub ops: u64,
    pub turn: u8,
}

/// What a run is made with: the jump table and the bucket and
/// distinguished-point bits.
pub struct FourConf<G> {
    pub table: Seq<(i64, G)>,
    pub bucket_bits: u32,
    pub dp_bits: u32,
}

/// The outcome of one move: the run ends with an answer (logarithm and
/// operation count), or goes on.
pub enum FourMove<G> {
    Done(Option<(i64, u64)>),
    Next(FourState<G>),
}

/// The state before the first move on `element` and `[-N/2, N/2)`: the
/// tame walks at `(3N/10) G` and `(3N/10 + 1) G`, the wild walks at the
/// target and its negation, wild distances `0`, no points stored.
pub open spec fn four_start<G: KangarooGroup>(element: G, n: int) -> FourState<G> {
    FourState {
        t1: signed_gen_mul::<G>(3 * n / 10),
        t1d: (3 * n / 10) as i64,
        t2: signed_gen_mul::<G>(3 * n / 10 + 1),
        t2d: (3 * n / 10 + 1) as i64,
        w1: element,
        w1d: 0,
        w2: element.spec_neg(),
        w2d: 0,
        tames: Map::empty(),
        wilds1: Map::empty(),
        wilds2: Map::empty(),
        ops: 0,
        turn: 0,
    }
}

/// One jump of a walk at `p` with distance `d`: the table entry of its
/// bucket.
pub open spec fn four_jump<G: KangarooGroup>(c: FourConf<G>, p: G) -> (i64, G) {
    c.table[p.spec_bucket(c.bucket_bits) as int]
}

/// One move of the walk whose turn it is: a jump (one group operation); a
/// distinguished point is stored and looked up in the other tables, tame
/// against the first then the second wild table, wild against the tame
/// table then the other wild table. The run gives up before the first tame
/// move of a round when the counter is within `4` of `u64::MAX`, and when a
/// distance would pass `MAX_DISTANCE`.
pub open spec fn four_move<G: KangarooGroup>(s: FourState<G>, c: FourConf<G>) -> FourMove<G> {
    let ops = (s.ops + 1) as u64;
    if s.turn == 0 || s.turn == 1 {
        let p = if s.turn == 0 { s.t1 } else { s.t2 };
        let d0 = if s.turn == 0 { s.t1d } else { s.t2d };
        let jump = four_jump(c, p);
        let td = d0 + jump.0;
        let t = p.spec_add(jump.1);
        let next = if s.turn == 0 {
            FourState { t1: t, t1d: td as i64, ops, turn: 1, ..s }
        } else {
            FourState { t2: t, t2d: td as i64, ops, turn: 2, ..s }
        };
        if (s.turn == 0 && s.ops > u64::MAX - 4) || td > MAX_DISTANCE {
            FourMove::Done(None)
        } else if t.spec_is_distinguished(c.dp_bits) {
            let k = t.spec_key();
            if s.wilds1.contains_key(k) {
                FourMove::Done(Some((collision_tw1_spec(td, s.wilds1[k] as int) as i64, ops)))
            } else if s.wilds2.contains_key(k) {
                FourMove::Done(Some((collision_tw2_spec(td, s.wilds2[k] as int) as i64, ops)))
            } else {
                FourMove::Next(FourState { tames: s.tames.insert(k, td as i64), ..next })
            }
        } else {
            FourMove::Next(next)
        }
    } else if s.turn == 2 {
        let jump = four_jump(c, s.w1);
        let wd = s.w1d + jump.0;
        let w = s.w1.spec_add(jump.1);
        let next = FourState { w1: w, w1d: wd as i64, ops, turn: 3, ..s };
        if wd > MAX_DISTANCE {
            FourMove::Done(None)
        } else if w.spec_is_distinguished(c.dp_bits) {
            let k = w.spec_key();
            if s.tames.contains_key(k) {
                FourMove::Done(Some((collision_tw1_spec(s.tames[k] as int, wd) as i64, ops)))
            } else if s.wilds2.contains_key(k) {
                FourMove::Done(Some((collision_w1w2_spec(wd, s.wilds2[k] as int) as i64, ops)))
            } else {
                FourMove::Next(FourState { wilds1: s.wilds1.insert(k, wd as i64), ..next })
            }
        } else {
            FourMove::Next(next)
        }
    } else {
        let jump = four_jump(c, s.w2);
        let wd = s.w2d + jump.0;
        let w = s.w2.spec_add(jump.1);
        let next = FourState { w2: w, w2d: wd as i64, ops, turn: 0, ..s };
        if wd > MAX_DISTANCE {
            FourMove::Done(None)
        } else if w.spec_is_distinguished(c.dp_bits) {
            let k = w.spec_key();
            if s.tames.contains_key(k) {
                FourMove::Done(Some((collision_tw2_spec(s.tames[k] as int, wd) as i64, ops)))
            } else if s.wilds1.contains_key(k) {
                FourMove::Done(Some((collision_w1w2_spec(s.wilds1[k] as int, wd) as i64, ops)))
            } else {
                FourMove::Next(FourState { wilds2: s.wilds2.insert(k, wd as i64), ..next })
            }
        } else {
            FourMove::Next(next)
        }
    }
}

/// The run from state `s`: moves until one ends it. Every move counts one
/// group operation, so the count of the answer is the number of jumps made.
pub open spec fn four_run<G: KangarooGroup>(s: FourState<G>, c: FourConf<G>) -> Option<(i64, u64)>
    decreases u64::MAX - s.ops,
{
    match four_move(s, c) {
        FourMove::Done(r) => r,
        FourMove::Next(s2) => if s2.ops > s.ops {
            four_run(s2, c)
        } else {
            None
        },
    }
}

/// The state after `k` moves from `s`, while none of them ended the run.
pub open spec fn four_after<G: KangarooGroup>(s: FourState<G>, c: FourConf<G>, k: nat) -> Option<FourState<G>>
    decreases k,
{
    if k == 0 {
        Some(s)
    } else {
        match four_move(s, c) {
            FourMove::Next(s2) => four_after(s2, c, (k - 1) as nat),
            FourMove::Done(_) => None,
        }
    }
}

/// The run from `s` ends with the answer `v` at its move number `k + 1`.
pub open spec fn four_ends_at<G: KangarooGroup>(s: FourState<G>, c: FourConf<G>, k: nat, v: (i64, u64)) -> bool {
    four_after(s, c, k) matches Some(e) && four_move(e, c) == FourMove::<G>::Done(Some(v))
}

/// Every move counts one group operation, whichever of the two tame and two
/// wild walks makes it: an answer of the run from `s` comes at some move
/// `k + 1` and counts `s.ops + k + 1` operations.
pub proof fn lemma_four_run_count<G: KangarooGroup>(s: FourState<G>, c: FourConf<G>, v: (i64, u64))
    requires
        four_run(s, c) == Some(v),
        s.turn == 0 || (s.turn == 1 && s.ops <= u64::MAX - 3) || (s.turn == 2 && s.ops <= u64::MAX - 2)
            || (s.turn == 3 && s.ops <= u64::MAX - 1),
    ensures
        exists|k: nat| #[trigger] four_ends_at(s, c, k, v) && v.1 == s.ops + k + 1,
    decreases u64::MAX - s.ops,
{
    match four_move(s, c) {
        FourMove::Done(r) => {
            assert(four_after(s, c, 0) == Some(s));
            assert(four_ends_at(s, c, 0, v));
        },
        FourMove::Next(s2) => {
            lemma_four_run_count(s2, c, v);
            let k2 = choose|k: nat| #[trigger] four_ends_at(s2, c, k, v) && v.1 == s2.ops + k + 1;
            assert(four_after(s, c, k2 + 1) == four_after(s2, c, k2));
            assert(four_ends_at(s, c, k2 + 1, v));
        },
    }
}

/// From the start, an answer counts exactly the moves made by the four
/// walks until two of them met.
pub proof fn lemma_four_answer_count<G: KangarooGroup>(element: G, n: int, c: FourConf<G>, v: (i64, u64))
    requires
        four_run(four_start(element, n), c) == Some(v),
    ensures
        exists|k: nat| #[trigger] four_ends_at(four_start(element, n), c, k, v) && v.1 == k + 1,
{
    lemma_four_run_count(four_start(element, n), c, v);
}

/// The state made of the walks' current values.
spec fn four_state_of<G>(
    t1: G,
    t1d: i64,
    t2: G,
    t2d: i64,
    w1: G,
    w1d: i64,
    w2: G,
    w2d: i64,
    tames: Map<u128, i64>,
    wilds1: Map<u128, i64>,
    wilds2: Map<u128, i64>,
    ops: u64,
    turn: u8,
) -> FourState<G> {
    FourState { t1, t1d, t2, t2d, w1, w1d, w2, w2d, tames, wilds1, wilds2, ops, turn }
}

/// What the solver returns for the run's result: the logarithm and the
/// operation count.
pub open spec fn solution_is(r: Option<Solution>, v: Option<(i64, u64)>) -> bool {
    match r {
        Some(s) => v == Some((s.spec_discrete_log(), s.spec_group_ops())),
        None => v is None,
    }
}

impl PollardFourKangarooSolver {
    /// A solver with a jump table of `2^bucket_bits` entries and
    /// distinguished points of `dp_bits` bits.
    pub fn new(bucket_bits: u32, dp_bits: u32) -> (r: Self)
        ensures
            r.spec_bucket_bits() == bucket_bits,
            r.spec_dp_bits() == dp_bits,
    {
        PollardFourKangarooSolver { bucket_bits, dp_bits }
    }

    /// The number of jump-table bits.
    pub closed spec fn spec_bucket_bits(&self) -> u32 {
        self.bucket_bits
    }

    /// The number of distinguished-point bits.
    pub closed spec fn spec_dp_bits(&self) -> u32 {
        self.dp_bits
    }

    fn collision_tw1(tame_distance: i64, wild1_distance: i64) -> (r: i64)
        requires
            i64::MIN <= tame_distance - wild1_distance <= i64::MAX,
        ensures
            r == collision_tw1_spec(tame_distance as int, wild1_distance as int),
    {
        tame_distance - wild1_distance
    }

    fn collision_tw2(tame_distance: i64, wild2_distance: i64) -> (r: i64)
        requires
            i64::MIN <= wild2_distance - tame_distance <= i64::MAX,
        ensures
            r == collision_tw2_spec(tame_distance as int, wild2_distance as int),
    {
        wild2_distance - tame_distance
    }

    fn collision_w1w2(wild1_distance: i64, wild2_distance: i64) -> (r: i64)
        requires
            i64::MIN <= wild2_distance - wild1_distance <= i64::MAX,
        ensures
            r == collision_w1w2_spec(wild1_distance as int, wild2_distance as int),
    {
        (wild2_distance - wild1_distance) / 2
    }

    /// The walks on `[-N/2, N/2)`: `Some` only with a logarithm of `element`.
    /// `None` when the jump table cannot be drawn, the counter would leave
    /// `u64` or a distance would pass `MAX_DISTANCE`.
    pub fn solve_symmetric<G: KangarooGroup>(
        &self,
        element: G,
        n: i64,
        rng: &mut Xoshiro256PlusPlus,
    ) -> (r: Option<Solution>)
        requires
            4 <= n <= 0x2000_0000_0000_0000,
            0 < self.spec_bucket_bits() <= 30,
            0 < self.spec_dp_bits() < 64,
            order_ok::<G>(),
        ensures
            r matches Some(s) ==> solves(element, s.spec_discrete_log() as int),
            r matches Some(s) ==> -MAX_DISTANCE <= s.spec_discrete_log() <= MAX_DISTANCE,
            r is Some ==> exists|ds: Seq<i64>, table: Seq<(i64, G)>, high: int, sum: int|
                #![trigger is_uniform_jump_table(ds, high, sum, self.spec_bucket_bits()), self.table_run(table, element, n)]
                jump_bounds_ok(n as int, 9, 128, self.spec_bucket_bits(), high, sum)
                    && is_uniform_jump_table(ds, high, sum, self.spec_bucket_bits())
                    && table.len() == ds.len()
                    && (forall|i: int| 0 <= i < ds.len() ==> #[trigger] table[i].0 == ds[i] * 2)
                    && solution_is(r, self.table_run(table, element, n)),
    {
        let (high, expected_sum) = uniform_jump_table_bounds(n, 9, 128, self.bucket_bits);
        assert(high >= 2) by (nonlinear_arith)
            requires
                high * high * 128 >= 4 * n * 9,
                n >= 4,
                high >= 0,
        {
            if high <= 1 {
                assert(high * high <= 1);
            }
        }
        let jump_table_distances = generate_uniform_jump_table_distances(
            high,
            expected_sum,
            self.bucket_bits,
            rng,
        )?;
        proof {
            assert(4 * 0x2000_0000_0000_0000int * 9 * 0x1000_0000_0000_0000int < (2 * 0x800_0000_0000_0000int - 1) * (2 * 0x800_0000_0000_0000int - 1) * 128) by (nonlinear_arith);
            lemma_table_sum_bound(n as int, 9, 128, self.bucket_bits, high as int, expected_sum as int, 0x800_0000_0000_0000);
            assert forall|i: int| 0 <= i < jump_table_distances@.len() implies 1 <= #[trigger] jump_table_distances@[i]
                && jump_table_distances@[i] * 2 <= 0x1000_0000_0000_0000 by {
                assert(jump_table_distances@[i] <= expected_sum);
            }
        }
        let jump_table: Vec<(i64, G)> = jump_table(&jump_table_distances, 2);

        let r = self.run_walks(element, n, &jump_table);
        proof {
            if r is Some {
                assert(solution_is(r, self.table_run(jump_table@, element, n)));
                assert(is_uniform_jump_table(jump_table_distances@, high as int, expected_sum as int, self.spec_bucket_bits()));
            }
        }
        r
    }

    /// The configuration of a run with the table `table`.
    pub open spec fn conf<G: KangarooGroup>(&self, table: Seq<(i64, G)>) -> FourConf<G> {
        FourConf { table, bucket_bits: self.spec_bucket_bits(), dp_bits: self.spec_dp_bits() }
    }

    /// With a table of `2^bucket_bits` even jumps, each `d` in `1..=2^58`
    /// with its point, the run on `element` and `[-N/2, N/2)`; `None` for
    /// any other table.
    pub open spec fn table_run<G: KangarooGroup>(&self, table: Seq<(i64, G)>, element: G, n: i64) -> Option<(i64, u64)> {
        if table.len() == vstd::arithmetic::power2::pow2(self.spec_bucket_bits() as nat) && jumps_ok(
            table,
            0x1000_0000_0000_0000,
        ) && (forall|i: int| 0 <= i < table.len() ==> (#[trigger] table[i]).0 % 2 == 0) {
            four_run(four_start(element, n as int), self.conf(table))
        } else {
            None
        }
    }

    /// The walks with the jump table `jump_table`: exactly the run
    /// `four_run` from the start on the target (the count is the number of
    /// jumps until the first collision); an answer is a logarithm of
    /// `element` within `MAX_DISTANCE` of `0`.
    #[verifier::rlimit(100)]
    #[verifier::spinoff_prover]
    pub fn run_walks<G: KangarooGroup>(
        &self,
        element: G,
        n: i64,
        jump_table: &Vec<(i64, G)>,
    ) -> (r: Option<Solution>)
        requires
            4 <= n <= 0x2000_0000_0000_0000,
            0 < self.spec_bucket_bits() <= 30,
            0 < self.spec_dp_bits() < 64,
            order_ok::<G>(),
            jump_table@.len() == vstd::arithmetic::power2::pow2(self.spec_bucket_bits() as nat),
            jumps_ok(jump_table@, 0x1000_0000_0000_0000),
            forall|i: int| 0 <= i < jump_table@.len() ==> (#[trigger] jump_table@[i]).0 % 2 == 0,
        ensures
            solution_is(r, four_run(four_start(element, n as int), self.conf(jump_table@))),
            r matches Some(s) ==> solves(element, s.spec_discrete_log() as int),
            r matches Some(s) ==> -MAX_DISTANCE <= s.spec_discrete_log() <= MAX_DISTANCE,
    {
        let ghost x0 = some_dlog(element);
        let ghost ok = group_laws::<G>() && G::spec_gen_mul(x0) == element;
        let mut group_ops: u64 = 0;
        let mut tame1_distance = 3 * n / 10;
        let mut tame1 = generator_scalar_mul_i64::<G>(tame1_distance);
        let mut tame2_distance = tame1_distance + 1;
        let mut tame2 = generator_scalar_mul_i64::<G>(tame2_distance);
        let mut wild1_distance: i64 = 0;
        let mut wild1 = element;
        let mut wild2_distance: i64 = 0;
        let mut wild2 = element.group_neg();

        let mut tames: HashMap<u128, i64> = HashMap::new();
        let mut wilds1: HashMap<u128, i64> = HashMap::new();
        let mut wilds2: HashMap<u128, i64> = HashMap::new();
        proof {
            if ok {
                assert(G::spec_gen_mul(x0).spec_neg() == G::spec_gen_mul(-x0));
                assert(x0 + 0 == x0 && -x0 + 0 == -x0);
            }
        }

        let ghost c = self.conf(jump_table@);
        let ghost s0 = four_start(element, n as int);
        assert(four_state_of(tame1, tame1_distance, tame2, tame2_distance, wild1, wild1_distance, wild2, wild2_distance, tames@, wilds1@, wilds2@, group_ops, 0) == s0);
        loop
            invariant
                0 < self.bucket_bits <= 30,
                0 < self.dp_bits < 64,
                jump_table@.len() == vstd::arithmetic::power2::pow2(self.bucket_bits as nat),
                jumps_ok(jump_table@, 0x1000_0000_0000_0000),
                forall|i: int| 0 <= i < jump_table@.len() ==> (#[trigger] jump_table@[i]).0 % 2 == 0,
                order_ok::<G>(),
                ok == (group_laws::<G>() && G::spec_gen_mul(x0) == element),
                x0 == some_dlog(element),
                0 <= tame1_distance,
                0 <= tame2_distance,
                0 <= wild1_distance,
                0 <= wild2_distance,
                wild1_distance % 2 == 0,
                wild2_distance % 2 == 0,
                group_laws::<G>() ==> tame1 == G::spec_gen_mul(tame1_distance as int),
                group_laws::<G>() ==> tame2 == G::spec_gen_mul(tame2_distance as int),
                ok ==> wild1 == G::spec_gen_mul(x0 + wild1_distance),
                ok ==> wild2 == G::spec_gen_mul(-x0 + wild2_distance),
                group_laws::<G>() ==> keys_at::<G>(tames@, 0),
                ok ==> keys_at::<G>(wilds1@, x0),
                ok ==> keys_at::<G>(wilds2@, -x0),
                0 <= tame1_distance <= MAX_DISTANCE,
                0 <= tame2_distance <= MAX_DISTANCE,
                0 <= wild1_distance <= MAX_DISTANCE,
                0 <= wild2_distance <= MAX_DISTANCE,
                forall|k: u128| #[trigger] tames@.contains_key(k) ==> 0 <= tames@[k] <= MAX_DISTANCE,
                forall|k: u128| #[trigger] wilds1@.contains_key(k) ==> 0 <= wilds1@[k] <= MAX_DISTANCE,
                forall|k: u128| #[trigger] wilds2@.contains_key(k) ==> 0 <= wilds2@[k] <= MAX_DISTANCE,
                forall|k: u128| #[trigger] tames@.contains_key(k) ==> 0 <= tames@[k],
                forall|k: u128| #[trigger]
                    wilds1@.contains_key(k) ==> 0 <= wilds1@[k] && wilds1@[k] % 2 == 0,
                forall|k: u128| #[trigger]
                    wilds2@.contains_key(k) ==> 0 <= wilds2@[k] && wilds2@[k] % 2 == 0,
                c == self.conf(jump_table@),
                s0 == four_start(element, n as int),
                jump_table@.len() == vstd::arithmetic::power2::pow2(self.spec_bucket_bits() as nat),
                four_run(four_state_of(tame1, tame1_distance, tame2, tame2_distance, wild1, wild1_distance, wild2, wild2_distance, tames@, wilds1@, wilds2@, group_ops, 0), c) == four_run(s0, c),
            decreases u64::MAX - group_ops,
        {
            let ghost sa = four_state_of(tame1, tame1_distance, tame2, tame2_distance, wild1, wild1_distance, wild2, wild2_distance, tames@, wilds1@, wilds2@, group_ops, 0);
            if group_ops > u64::MAX - 4 {
                assert(four_run(sa, c) is None);
                return None;
            }
            // first tame kangaroo
            let tame1_bucket = tame1.bucket(self.bucket_bits);
            let (tame1_jump_distance, tame1_jump) = jump_table[tame1_bucket];
            proof {
                if group_laws::<G>() {
                    assert(G::spec_gen_mul(tame1_distance as int).spec_add(G::spec_gen_mul(
                        tame1_jump_distance as int,
                    )) == G::spec_gen_mul(tame1_distance + tame1_jump_distance));
                }
            }
            tame1_distance = tame1_distance + tame1_jump_distance;
            if tame1_distance > MAX_DISTANCE {
                assert(four_run(sa, c) is None);
                return None;
            }
            tame1 = tame1.group_add(&tame1_jump);
            group_ops = group_ops + 1;
            if tame1.is_distinguished(self.dp_bits) {
                let key = tame1.key();
                proof {
                    if group_laws::<G>() {
                        lemma_keys_at_insert::<G>(tames@, 0, tame1_distance);
                        assert(0 + tame1_distance == tame1_distance);
                    }
                }
                tames.insert(key, tame1_distance);
                match wilds1.get(&key) {
                    Some(found) => {
                        let w1d = *found;
                        let discrete_log = Self::collision_tw1(tame1_distance, w1d);
                        proof {
                            lemma_tame_wild1::<G>(element, x0, tame1_distance as int, w1d as int);
                        }
                        let res = Solution::new(discrete_log, group_ops);
                        assert(solution_is(Some(res), four_run(sa, c)));
                        return Some(res);
                    },
                    None => {},
                }
                match wilds2.get(&key) {
                    Some(found) => {
                        let w2d = *found;
                        let discrete_log = Self::collision_tw2(tame1_distance, w2d);
                        proof {
                            lemma_tame_wild2::<G>(element, x0, tame1_distance as int, w2d as int);
                        }
                        let res = Solution::new(discrete_log, group_ops);
                        assert(solution_is(Some(res), four_run(sa, c)));
                        return Some(res);
                    },
                    None => {},
                }
            }
            let ghost sb = four_state_of(tame1, tame1_distance, tame2, tame2_distance, wild1, wild1_distance, wild2, wild2_distance, tames@, wilds1@, wilds2@, group_ops, 1);
            assert(four_run(sa, c) == four_run(sb, c));
            // second tame kangaroo
            let tame2_bucket = tame2.bucket(self.bucket_bits);
            let (tame2_jump_distance, tame2_jump) = jump_table[tame2_bucket];
            proof {
                if group_laws::<G>() {
                    assert(G::spec_gen_mul(tame2_distance as int).spec_add(G::spec_gen_mul(
                        tame2_jump_distance as int,
                    )) == G::spec_gen_mul(tame2_distance + tame2_jump_distance));
                }
            }
            tame2_distance = tame2_distance + tame2_jump_distance;
            if tame2_distance > MAX_DISTANCE {
                assert(four_run(sb, c) is None);
                return None;
            }
            tame2 = tame2.group_add(&tame2_jump);
            group_ops = group_ops + 1;
            if tame2.is_distinguished(self.dp_bits) {
                let key = tame2.key();
                proof {
                    if group_laws::<G>() {
                        lemma_keys_at_insert::<G>(tames@, 0, tame2_distance);
                        assert(0 + tame2_distance == tame2_distance);
                    }
                }
                tames.insert(key, tame2_distance);
                match wilds1.get(&key) {
                    Some(found) => {
                        let w1d = *found;
                        let discrete_log = Self::collision_tw1(tame2_distance, w1d);
                        proof {
                            lemma_tame_wild1::<G>(element, x0, tame2_distance as int, w1d as int);
                        }
                        let res = Solution::new(discrete_log, group_ops);
                        assert(solution_is(Some(res), four_run(sb, c)));
                        return Some(res);
                    },
                    None => {},
                }
                match wilds2.get(&key) {
                    Some(found) => {
                        let w2d = *found;
                        let discrete_log = Self::collision_tw2(tame2_distance, w2d);
                        proof {
                            lemma_tame_wild2::<G>(element, x0, tame2_distance as int, w2d as int);
                        }
                        let res = Solution::new(discrete_log, group_ops);
                        assert(solution_is(Some(res), four_run(sb, c)));
                        return Some(res);
                    },
                    None => {},
                }
            }
            let ghost sc = four_state_of(tame1, tame1_distance, tame2, tame2_distance, wild1, wild1_distance, wild2, wild2_distance, tames@, wilds1@, wilds2@, group_ops, 2);
            assert(four_run(sb, c) == four_run(sc, c));
            // wild kangaroo from Q
            let wild1_bucket = wild1.bucket(self.bucket_bits);
            let (wild1_jump_distance, wild1_jump) = jump_table[wild1_bucket];
            proof {
                if ok {
                    assert(G::spec_gen_mul(x0 + wild1_distance).spec_add(G::spec_gen_mul(
                        wild1_jump_distance as int,
                    )) == G::spec_gen_mul(x0 + wild1_distance + wild1_jump_distance));
                }
            }
            wild1_distance = wild1_distance + wild1_jump_distance;
            if wild1_distance > MAX_DISTANCE {
                assert(four_run(sc, c) is None);
                return None;
            }
            wild1 = wild1.group_add(&wild1_jump);
            group_ops = group_ops + 1;
            if wild1.is_distinguished(self.dp_bits) {
                let key = wild1.key();
                proof {
                    if ok {
                        lemma_keys_at_insert::<G>(wilds1@, x0, wild1_distance);
                    }
                }
                wilds1.insert(key, wild1_distance);
                match tames.get(&key) {
                    Some(found) => {
                        let td = *found;
                        let discrete_log = Self::collision_tw1(td, wild1_distance);
                        proof {
                            lemma_tame_wild1::<G>(element, x0, td as int, wild1_distance as int);
                        }
                        let res = Solution::new(discrete_log, group_ops);
                        assert(solution_is(Some(res), four_run(sc, c)));
                        return Some(res);
                    },
                    None => {},
                }
                match wilds2.get(&key) {
                    Some(found) => {
                        let w2d = *found;
                        let discrete_log = Self::collision_w1w2(wild1_distance, w2d);
                        proof {
                            lemma_wild1_wild2::<G>(element, x0, wild1_distance as int, w2d as int);
                        }
                        let res = Solution::new(discrete_log, group_ops);
                        assert(solution_is(Some(res), four_run(sc, c)));
                        return Some(res);
                    },
                    None => {},
                }
            }
            let ghost sd = four_state_of(tame1, tame1_distance, tame2, tame2_distance, wild1, wild1_distance, wild2, wild2_distance, tames@, wilds1@, wilds2@, group_ops, 3);
            assert(four_run(sc, c) == four_run(sd, c));
            // wild kangaroo from -Q
            let wild2_bucket = wild2.bucket(self.bucket_bits);
            let (wild2_jump_distance, wild2_jump) = jump_table[wild2_bucket];
            proof {
                if ok {
                    assert(G::spec_gen_mul(-x0 + wild2_distance).spec_add(G::spec_gen_mul(
                        wild2_jump_distance as int,
                    )) == G::spec_gen_mul(-x0 + wild2_distance + wild2_jump_distance));
                }
            }
            wild2_distance = wild2_distance + wild2_jump_distance;
            if wild2_distance > MAX_DISTANCE {
                assert(four_run(sd, c) is None);
                return None;
            }
            wild2 = wild2.group_add(&wild2_jump);
            group_ops = group_ops + 1;
            if wild2.is_distinguished(self.dp_bits) {
                let key = wild2.key();
                proof {
                    if ok {
                        lemma_keys_at_insert::<G>(wilds2@, -x0, wild2_distance);
                    }
                }
                wilds2.insert(key, wild2_distance);
                match tames.get(&key) {
                    Some(found) => {
                        let td = *found;
                        let discrete_log = Self::collision_tw2(td, wild2_distance);
                        proof {
                            lemma_tame_wild2::<G>(element, x0, td as int, wild2_distance as int);
                        }
                        let res = Solution::new(discrete_log, group_ops);
                        assert(solution_is(Some(res), four_run(sd, c)));
                        return Some(res);
                    },
                    None => {},
                }
                match wilds1.get(&key) {
                    Some(found) => {
                        let w1d = *found;
                        let discrete_log = Self::collision_w1w2(w1d, wild2_distance);
                        proof {
                            lemma_wild1_wild2::<G>(element, x0, w1d as int, wild2_distance as int);
                        }
                        let res = Solution::new(discrete_log, group_ops);
                        assert(solution_is(Some(res), four_run(sd, c)));
                        return Some(res);
                    },
                    None => {},
                }
            }
            assert(four_run(sd, c) == four_run(four_state_of(tame1, tame1_distance, tame2, tame2_distance, wild1, wild1_distance, wild2, wild2_distance, tames@, wilds1@, wilds2@, group_ops, 0), c));
        }
    }
}

impl DiscreteLogSolver for PollardFourKangarooSolver {
    open spec fn accepts(&self, l: int, h: int) -> bool {
        &&& 0 < self.spec_bucket_bits() <= 30
        &&& 0 < self.spec_dp_bits() < 64
        &&& h - l >= 4
    }

    fn solve<G: KangarooGroup>(
        &self,
        element: G,
        l: i64,
        h: i64,
        rng: &mut Xoshiro256PlusPlus,
    ) -> (r: Option<Solution>)
        ensures
            r matches Some(s) ==> exists|table: Seq<(i64, G)>| #[trigger]
                self.table_run(
                    table,
                    element.spec_add(signed_gen_mul::<G>(l + (h - l) / 2).spec_neg()),
                    (h - l) as i64,
                ) == Some(((s.spec_discrete_log() - (l + (h - l) / 2)) as i64, s.spec_group_ops())),
    {
        let n = h - l;
        let n_half = n / 2;
        let shift = l + n_half;
        let shifted = element.group_sub(&generator_scalar_mul_i64::<G>(shift));
        let solution = self.solve_symmetric(shifted, n, rng)?;
        let discrete_log = solution.discrete_log().checked_add(shift)?;
        proof {
            assert forall|x: int|
                #![trigger G::spec_gen_mul(x)]
                group_laws::<G>() && G::spec_gen_mul(x) == element && l <= x < h implies (
                discrete_log as int) % G::spec_order() == x % G::spec_order() by {
                lemma_shift::<G>(x, shift as int);
                lemma_unshift(solution.spec_discrete_log() as int, x, shift as int,
                    G::spec_order());
            }
            if has_log_in(element, l as int, h as int) {
                lemma_exact_near(element, l as int, h as int, shift as int, discrete_log as int);
            }
        }
        Some(Solution::new(discrete_log, solution.group_ops()))
    }
}

} // verus!
