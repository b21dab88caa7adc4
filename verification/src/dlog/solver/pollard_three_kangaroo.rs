//! Pollard's kangaroo with one tame walk and two wild walks, from
//! `Q - (l + N/2) G` and its negation, with a jump table of mean
//! `0.375 sqrt(N)` and distinguished points.
use std::collections::HashMap;
use vstd::prelude::*;

use crate::dlog::solver::{DiscreteLogSolver, Solution};
use crate::dlp::jump::{
    generate_uniform_jump_table_distances, is_uniform_jump_table, jump_bounds_ok, jump_table, jumps_ok,
    lemma_table_sum_bound,
    uniform_jump_table_bounds,
};
use crate::dlp::{
    half_toward_zero, has_log_in, interval_ok, keys_at, lemma_exact, lemma_exact_near,
    lemma_keys_at_insert, lemma_neg_congruence, lemma_same_key, lemma_shift, lemma_unshift,
    order_ok, solves_interval, some_dlog, MAX_DISTANCE,
};
use crate::group::helpers::generator_scalar_mul_i64;
use crate::group::{group_laws, signed_gen_mul, KangarooGroup};
use rand::rngs::Xoshiro256PlusPlus;
use vstd::arithmetic::div_mod::*;

verus! {

broadcast use vstd::std_specs::hash::group_hash_axioms;

/// How far a walk may travel before the solver gives up: beyond it a
/// wild-wild collision could no longer be told from a wrap-around modulo the
/// group order.
pub const MAX_WALK_DISTANCE: i64 = 0x1000_0000_0000_0000;

/// The three-kangaroo solver with `2^bucket_bits` jumps and distinguished
/// points of `dp_bits` bits.
pub struct PollardThreeKangarooSolver {
    phi_bits: u32,
    dp_bits: u32,
}

impl PollardThreeKangarooSolver {
    /// A solver with a jump table of `2^bucket_bits` entries and
    /// distinguished points of `dp_bits` bits.
    pub fn new(bucket_bits: u32, dp_bits: u32) -> (r: Self)
        ensures
            r.bucket_bits() == bucket_bits,
            r.dp_bits() == dp_bits,
    {
        PollardThreeKangarooSolver { phi_bits: bucket_bits, dp_bits }
    }

    /// The number of jump-table bits.
    pub closed spec fn bucket_bits(&self) -> u32 {
        self.phi_bits
    }

    /// The number of distinguished-point bits.
    pub closed spec fn dp_bits(&self) -> u32 {
        self.dp_bits
    }

    /// The tame walk at `tame_position` meets the first wild walk:
    /// `x = low + wild_offset + tame_position - wild1_distance`.
    fn collision_tame_wild1(
        &self,
        low: i64,
        wild_offset: i64,
        tame_position: i64,
        wild1_distance: i64,
        iters: u64,
    ) -> (r: Solution)
        requires
            i64::MIN <= low + wild_offset + tame_position - wild1_distance <= i64::MAX,
            i64::MIN <= low + wild_offset <= i64::MAX,
            i64::MIN <= low + wild_offset + tame_position <= i64::MAX,
        ensures
            r.dlog == low + wild_offset + tame_position - wild1_distance,
            r.iters == iters,
    {
        Solution { dlog: low + wild_offset + tame_position - wild1_distance, iters }
    }

    /// The tame walk at `tame_position` meets the second wild walk:
    /// `x = low + wild_offset + wild2_distance - tame_position`.
    fn collision_tame_wild2(
        &self,
        low: i64,
        wild_offset: i64,
        tame_position: i64,
        wild2_distance: i64,
        iters: u64,
    ) -> (r: Solution)
        requires
            i64::MIN <= low + wild_offset + wild2_distance - tame_position <= i64::MAX,
            i64::MIN <= low + wild_offset <= i64::MAX,
            i64::MIN <= low + wild_offset + wild2_distance <= i64::MAX,
        ensures
            r.dlog == low + wild_offset + wild2_distance - tame_position,
            r.iters == iters,
    {
        Solution { dlog: low + wild_offset + wild2_distance - tame_position, iters }
    }

    /// The two wild walks meet: `x = low + (interval_width + wild2_distance -
    /// wild1_distance) / 2`.
    fn collision_wild(
        &self,
        low: i64,
        interval_width: i64,
        wild1_distance: i64,
        wild2_distance: i64,
        iters: u64,
    ) -> (r: Solution)
        requires
            i64::MIN <= interval_width + wild2_distance <= i64::MAX,
            i64::MIN <= interval_width + wild2_distance - wild1_distance <= i64::MAX,
            i64::MIN <= low + half_toward_zero(interval_width + wild2_distance - wild1_distance)
                <= i64::MAX,
        ensures
            r.dlog == low + half_toward_zero(interval_width + wild2_distance - wild1_distance),
            r.iters == iters,
    {
        Solution { dlog: low + (interval_width + wild2_distance - wild1_distance) / 2, iters }
    }
}

/// The walk state the solver keeps: the tame walk at `(tame_start + td) * G`,
/// the wild walks at `(y + w1d) * G` and `(-y + w2d) * G`, where
/// `y = x - low - wild_offset`, and the tables of their distinguished points.
spec fn three_walks_ok<G: KangarooGroup>(
    ok: bool,
    y: int,
    tame_start: int,
    t: G,
    td: int,
    w1: G,
    w1d: int,
    w2: G,
    w2d: int,
    tames: Map<u128, i64>,
    wilds1: Map<u128, i64>,
    wilds2: Map<u128, i64>,
) -> bool {
    &&& group_laws::<G>() ==> t == G::spec_gen_mul(tame_start + td)
    &&& ok ==> w1 == G::spec_gen_mul(y + w1d)
    &&& ok ==> w2 == G::spec_gen_mul(-y + w2d)
    &&& group_laws::<G>() ==> keys_at::<G>(tames, tame_start)
    &&& ok ==> keys_at::<G>(wilds1, y)
    &&& ok ==> keys_at::<G>(wilds2, -y)
    &&& forall|k: u128| #[trigger] tames.contains_key(k) ==> 0 <= tames[k] <= MAX_WALK_DISTANCE
    &&& forall|k: u128| #[trigger] wilds1.contains_key(k) ==> 0 <= wilds1[k] <= MAX_WALK_DISTANCE
    &&& forall|k: u128| #[trigger] wilds2.contains_key(k) ==> 0 <= wilds2[k] <= MAX_WALK_DISTANCE
}


/// The state of the three walks between two moves: the points and
/// distances of the tame walk and the two wild walks, the tables of their
/// distinguished points, the operation count and whose move is next
/// (`0` tame, `1` first wild, `2` second wild).
pub struct ThreeState<G> {
    pub t: G,
    pub td: i64,
    pub w1: G,
    pub w1d: i64,
    pub w2: G,
    pub w2d: i64,
    pub tames: Map<u128, i64>,
    pub wilds1: Map<u128, i64>,
    pub wilds2: Map<u128, i64>,
    pub iters: u64,
    pub turn: u8,
}

/// What a run is made with: the jump table, the bucket and
/// distinguished-point bits, and the interval `[low, low + n)`.
pub struct ThreeConf<G> {
    pub table: Seq<(i64, G)>,
    pub bucket_bits: u32,
    pub dp_bits: u32,
    pub low: i64,
    pub n: i64,
}

/// The outcome of one move: the run ends with an answer, or goes on.
pub enum ThreeMove<G> {
    Done(Option<Solution>),
    Next(ThreeState<G>),
}

/// Where the tame walk starts: `3 N / 10`.
pub open spec fn tame_start_of(n: int) -> int {
    3 * n / 10
}

/// How far the wild walks are shifted: `N / 2`.
pub open spec fn wild_offset_of(n: int) -> int {
    n / 2
}

/// The state before the first move on `element` and `[low, low + n)`: the
/// tame walk at `(3N/10) G`, the wild walks at `Q - (low + N/2) G` and its
/// negation, all distances `0`, no points stored.
pub open spec fn three_start<G: KangarooGroup>(element: G, low: int, n: int) -> ThreeState<G> {
    let w1 = element.spec_add(signed_gen_mul::<G>(low).spec_neg()).spec_add(
        signed_gen_mul::<G>(wild_offset_of(n)).spec_neg(),
    );
    ThreeState {
        t: signed_gen_mul::<G>(tame_start_of(n)),
        td: 0,
        w1,
        w1d: 0,
        w2: w1.spec_neg(),
        w2d: 0,
        tames: Map::empty(),
        wilds1: Map::empty(),
        wilds2: Map::empty(),
        iters: 0,
        turn: 0,
    }
}

/// One move of the walk whose turn it is: it jumps by the table entry of
/// its point's bucket (one group operation); a distinguished point is
/// stored and looked up in the other walks' tables, the first match giving
/// the answer. The run gives up before a tame move when the counter is
/// within `3` of `u64::MAX`, and when a distance would pass
/// `MAX_WALK_DISTANCE`.
pub open spec fn three_move<G: KangarooGroup>(s: ThreeState<G>, c: ThreeConf<G>) -> ThreeMove<G> {
    let ts = tame_start_of(c.n as int);
    let wo = wild_offset_of(c.n as int);
    let iters = (s.iters + 1) as u64;
    if s.turn == 0 {
        let jump = c.table[s.t.spec_bucket(c.bucket_bits) as int];
        let td = s.td + jump.0;
        let t = s.t.spec_add(jump.1);
        if s.iters > u64::MAX - 3 || td > MAX_WALK_DISTANCE {
            ThreeMove::Done(None)
        } else if t.spec_is_distinguished(c.dp_bits) {
            let k = t.spec_key();
            if s.wilds1.contains_key(k) {
                ThreeMove::Done(
                    Some(Solution { dlog: (c.low + wo + ts + td - s.wilds1[k]) as i64, iters }),
                )
            } else if s.wilds2.contains_key(k) {
                ThreeMove::Done(
                    Some(Solution { dlog: (c.low + wo + s.wilds2[k] - (ts + td)) as i64, iters }),
                )
            } else {
                ThreeMove::Next(
                    ThreeState { t, td: td as i64, tames: s.tames.insert(k, td as i64), iters, turn: 1, ..s },
                )
            }
        } else {
            ThreeMove::Next(ThreeState { t, td: td as i64, iters, turn: 1, ..s })
        }
    } else if s.turn == 1 {
        let jump = c.table[s.w1.spec_bucket(c.bucket_bits) as int];
        let w1d = s.w1d + jump.0;
        let w1 = s.w1.spec_add(jump.1);
        if w1d > MAX_WALK_DISTANCE {
            ThreeMove::Done(None)
        } else if w1.spec_is_distinguished(c.dp_bits) {
            let k = w1.spec_key();
            if s.tames.contains_key(k) {
                ThreeMove::Done(
                    Some(Solution { dlog: (c.low + wo + ts + s.tames[k] - w1d) as i64, iters }),
                )
            } else if s.wilds2.contains_key(k) {
                ThreeMove::Done(
                    Some(
                        Solution {
                            dlog: (c.low + half_toward_zero(c.n + s.wilds2[k] - w1d)) as i64,
                            iters,
                        },
                    ),
                )
            } else {
                ThreeMove::Next(
                    ThreeState { w1, w1d: w1d as i64, wilds1: s.wilds1.insert(k, w1d as i64), iters, turn: 2, ..s },
                )
            }
        } else {
            ThreeMove::Next(ThreeState { w1, w1d: w1d as i64, iters, turn: 2, ..s })
        }
    } else {
        let jump = c.table[s.w2.spec_bucket(c.bucket_bits) as int];
        let w2d = s.w2d + jump.0;
        let w2 = s.w2.spec_add(jump.1);
        if w2d > MAX_WALK_DISTANCE {
            ThreeMove::Done(None)
        } else if w2.spec_is_distinguished(c.dp_bits) {
            let k = w2.spec_key();
            if s.tames.contains_key(k) {
                ThreeMove::Done(
                    Some(Solution { dlog: (c.low + wo + w2d - (ts + s.tames[k])) as i64, iters }),
                )
            } else if s.wilds1.contains_key(k) {
                ThreeMove::Done(
                    Some(
                        Solution {
                            dlog: (c.low + half_toward_zero(c.n + w2d - s.wilds1[k])) as i64,
                            iters,
                        },
                    ),
                )
            } else {
                ThreeMove::Next(
                    ThreeState { w2, w2d: w2d as i64, wilds2: s.wilds2.insert(k, w2d as i64), iters, turn: 0, ..s },
                )
            }
        } else {
            ThreeMove::Next(ThreeState { w2, w2d: w2d as i64, iters, turn: 0, ..s })
        }
    }
}

/// The state made of the walks' current values.
spec fn state_of<G>(
    t: G,
    td: i64,
    w1: G,
    w1d: i64,
    w2: G,
    w2d: i64,
    tames: Map<u128, i64>,
    wilds1: Map<u128, i64>,
    wilds2: Map<u128, i64>,
    iters: u64,
    turn: u8,
) -> ThreeState<G> {
    ThreeState { t, td, w1, w1d, w2, w2d, tames, wilds1, wilds2, iters, turn }
}

/// The run from state `s`: moves until one ends it. Every move counts one
/// group operation, so `iters` of the answer is the number of jumps made.
pub open spec fn three_run<G: KangarooGroup>(s: ThreeState<G>, c: ThreeConf<G>) -> Option<Solution>
    decreases u64::MAX - s.iters,
{
    match three_move(s, c) {
        ThreeMove::Done(r) => r,
        ThreeMove::Next(s2) => if s2.iters > s.iters {
            three_run(s2, c)
        } else {
            None
        },
    }
}

/// The state after `k` moves from `s`, while none of them ended the run.
pub open spec fn three_after<G: KangarooGroup>(s: ThreeState<G>, c: ThreeConf<G>, k: nat) -> Option<ThreeState<G>>
    decreases k,
{
    if k == 0 {
        Some(s)
    } else {
        match three_move(s, c) {
            ThreeMove::Next(s2) => three_after(s2, c, (k - 1) as nat),
            ThreeMove::Done(_) => None,
        }
    }
}

/// The run from `s` ends with the answer `sol` at its move number `k + 1`.
pub open spec fn three_ends_at<G: KangarooGroup>(s: ThreeState<G>, c: ThreeConf<G>, k: nat, sol: Solution) -> bool {
    three_after(s, c, k) matches Some(e) && three_move(e, c) == ThreeMove::<G>::Done(Some(sol))
}

/// Every move counts one group operation, whichever of the tame and the two
/// wild walks makes it: an answer of the run from `s` comes at some move
/// `k + 1` and counts `s.iters + k + 1` operations.
pub proof fn lemma_three_run_count<G: KangarooGroup>(s: ThreeState<G>, c: ThreeConf<G>, sol: Solution)
    requires
        three_run(s, c) == Some(sol),
        s.turn == 0 || (s.turn == 1 && s.iters <= u64::MAX - 2) || (s.turn == 2 && s.iters <= u64::MAX - 1),
    ensures
        exists|k: nat| #[trigger] three_ends_at(s, c, k, sol) && sol.iters == s.iters + k + 1,
    decreases u64::MAX - s.iters,
{
    match three_move(s, c) {
        ThreeMove::Done(r) => {
            assert(three_after(s, c, 0) == Some(s));
            assert(three_ends_at(s, c, 0, sol));
        },
        ThreeMove::Next(s2) => {
            lemma_three_run_count(s2, c, sol);
            let k2 = choose|k: nat| #[trigger] three_ends_at(s2, c, k, sol) && sol.iters == s2.iters + k + 1;
            assert(three_after(s, c, k2 + 1) == three_after(s2, c, k2));
            assert(three_ends_at(s, c, k2 + 1, sol));
        },
    }
}

/// From the start, an answer counts exactly the moves made by the three
/// walks until two of them met.
pub proof fn lemma_three_answer_count<G: KangarooGroup>(element: G, low: int, n: int, c: ThreeConf<G>, sol: Solution)
    requires
        three_run(three_start(element, low, n), c) == Some(sol),
    ensures
        exists|k: nat| #[trigger] three_ends_at(three_start(element, low, n), c, k, sol) && sol.iters == k + 1,
{
    lemma_three_run_count(three_start(element, low, n), c, sol);
}

impl PollardThreeKangarooSolver {
    /// The three walks: an answer is congruent to the logarithm and within
    /// `MAX_DISTANCE` of the middle of the interval.
    fn walks<G: KangarooGroup>(
        &self,
        low_bound_inclusive: i64,
        high_bound_exclusive: i64,
        element: G,
        rng: &mut Xoshiro256PlusPlus,
    ) -> (r: Option<Solution>)
        requires
            interval_ok(low_bound_inclusive as int, high_bound_exclusive as int),
            order_ok::<G>(),
            0 < self.bucket_bits() <= 30,
            0 < self.dp_bits() < 64,
            high_bound_exclusive - low_bound_inclusive >= 2,
        ensures
            r matches Some(s) ==> solves_interval(
                element,
                low_bound_inclusive as int,
                high_bound_exclusive as int,
                s.dlog as int,
            ),
            r matches Some(s) ==> -MAX_DISTANCE <= s.dlog - (low_bound_inclusive + (
            high_bound_exclusive - low_bound_inclusive) / 2) <= MAX_DISTANCE,
            r is Some ==> exists|ds: Seq<i64>, table: Seq<(i64, G)>, high: int, sum: int|
                #![trigger is_uniform_jump_table(ds, high, sum, self.bucket_bits()), self.table_run(table, element, low_bound_inclusive, high_bound_exclusive)]
                jump_bounds_ok(high_bound_exclusive - low_bound_inclusive, 9, 64, self.bucket_bits(), high, sum)
                    && is_uniform_jump_table(ds, high, sum, self.bucket_bits())
                    && table.len() == ds.len()
                    && (forall|i: int| 0 <= i < ds.len() ==> #[trigger] table[i].0 == ds[i])
                    && self.table_run(table, element, low_bound_inclusive, high_bound_exclusive) == r,
    {
        let n = high_bound_exclusive - low_bound_inclusive;
        let (high, expected_sum) = uniform_jump_table_bounds(n, 9, 64, self.phi_bits);
        assert(high >= 2) by (nonlinear_arith)
            requires
                high * high * 64 >= 4 * n * 9,
                n >= 2,
                high >= 0,
        {
            if high <= 1 {
                assert(high * high <= 1);
            }
        }
        let jump_table_distances = generate_uniform_jump_table_distances(
            high,
            expected_sum,
            self.phi_bits,
            rng,
        )?;
        proof {
            assert(4 * 0x2000_0000_0000_0000int * 9 * 0x1000_0000_0000_0000int < (2 * 0x1000_0000_0000_0000int - 1) * (2 * 0x1000_0000_0000_0000int - 1) * 64) by (nonlinear_arith);
            lemma_table_sum_bound(n as int, 9, 64, self.phi_bits, high as int, expected_sum as int, 0x1000_0000_0000_0000);
            assert forall|i: int| 0 <= i < jump_table_distances@.len() implies 1 <= #[trigger] jump_table_distances@[i]
                && jump_table_distances@[i] * 1 <= 0x1000_0000_0000_0000 by {
                assert(jump_table_distances@[i] <= expected_sum);
            }
        }
        let jump_table: Vec<(i64, G)> = jump_table(&jump_table_distances, 1);

        let r = self.run_walks(low_bound_inclusive, high_bound_exclusive, element, &jump_table);
        proof {
            if r is Some {
                assert(self.table_run(jump_table@, element, low_bound_inclusive, high_bound_exclusive)
                    == r);
                assert(is_uniform_jump_table(jump_table_distances@, high as int, expected_sum as int, self.bucket_bits()));
            }
        }
        r
    }

    /// The configuration of a run with the table `table` on `[low, high)`.
    pub open spec fn conf<G: KangarooGroup>(&self, table: Seq<(i64, G)>, low: i64, high: i64) -> ThreeConf<G> {
        ThreeConf {
            table,
            bucket_bits: self.bucket_bits(),
            dp_bits: self.dp_bits(),
            low,
            n: (high - low) as i64,
        }
    }

    /// With a table of `2^bucket_bits` jumps, each `d` in `1..=2^58` with
    /// its point, the run on `element` and `[low, high)`; `None` for any
    /// other table.
    pub open spec fn table_run<G: KangarooGroup>(
        &self,
        table: Seq<(i64, G)>,
        element: G,
        low: i64,
        high: i64,
    ) -> Option<Solution> {
        if table.len() == vstd::arithmetic::power2::pow2(self.bucket_bits() as nat) && jumps_ok(
            table,
            0x1000_0000_0000_0000,
        ) {
            three_run(three_start(element, low as int, high - low), self.conf(table, low, high))
        } else {
            None
        }
    }

    /// The three walks with the jump table `jump_table`: exactly the run
    /// `three_run` from the start on the target (so `iters` is the number
    /// of jumps until the first collision), an answer congruent to the
    /// logarithm and within `MAX_DISTANCE` of the middle of the interval.
    #[verifier::rlimit(100)]
    #[verifier::spinoff_prover]
    pub fn run_walks<G: KangarooGroup>(
        &self,
        low_bound_inclusive: i64,
        high_bound_exclusive: i64,
        element: G,
        jump_table: &Vec<(i64, G)>,
    ) -> (r: Option<Solution>)
        requires
            interval_ok(low_bound_inclusive as int, high_bound_exclusive as int),
            order_ok::<G>(),
            0 < self.bucket_bits() <= 30,
            0 < self.dp_bits() < 64,
            high_bound_exclusive - low_bound_inclusive >= 2,
            jump_table@.len() == vstd::arithmetic::power2::pow2(self.bucket_bits() as nat),
            jumps_ok(jump_table@, 0x1000_0000_0000_0000),
        ensures
            r == three_run(
                three_start(element, low_bound_inclusive as int, high_bound_exclusive - low_bound_inclusive),
                self.conf(jump_table@, low_bound_inclusive, high_bound_exclusive),
            ),
            r matches Some(s) ==> solves_interval(
                element,
                low_bound_inclusive as int,
                high_bound_exclusive as int,
                s.dlog as int,
            ),
            r matches Some(s) ==> -MAX_DISTANCE <= s.dlog - (low_bound_inclusive + (
            high_bound_exclusive - low_bound_inclusive) / 2) <= MAX_DISTANCE,
    {
        let ghost x0 = some_dlog(element);
        let ghost ok = group_laws::<G>() && G::spec_gen_mul(x0) == element;
        let low = low_bound_inclusive;
        let n = high_bound_exclusive - low_bound_inclusive;
        let tame_start = 3 * n / 10;
        let wild_offset = n / 2;
        let ghost y0 = x0 - low - wild_offset;
        let shifted_element = element.group_sub(&generator_scalar_mul_i64::<G>(low));
        let mut iters: u64 = 0;
        let mut t = generator_scalar_mul_i64::<G>(tame_start);
        let mut t_distance: i64 = 0;
        let mut w1 = shifted_element.group_sub(&generator_scalar_mul_i64::<G>(wild_offset));
        let mut w1_distance: i64 = 0;
        let mut w2 = w1.group_neg();
        let mut w2_distance: i64 = 0;
        let mut tames: HashMap<u128, i64> = HashMap::new();
        let mut wilds1: HashMap<u128, i64> = HashMap::new();
        let mut wilds2: HashMap<u128, i64> = HashMap::new();
        proof {
            if ok {
                lemma_shift::<G>(x0, low as int);
                lemma_shift::<G>(x0 - low, wild_offset as int);
                assert(G::spec_gen_mul(y0 + 0).spec_neg() == G::spec_gen_mul(-(y0 + 0)));
            }
            if group_laws::<G>() {
                assert(tame_start + 0 == tame_start);
            }
        }

        let ghost c = self.conf(jump_table@, low, high_bound_exclusive);
        let ghost s0 = three_start(element, low as int, n as int);
        assert(state_of(t, t_distance, w1, w1_distance, w2, w2_distance, tames@, wilds1@, wilds2@,
            iters, 0) == s0);
        loop
            invariant
                0 < self.phi_bits <= 30,
                0 < self.dp_bits < 64,
                jump_table@.len() == vstd::arithmetic::power2::pow2(self.phi_bits as nat),
                jumps_ok(jump_table@, 0x1000_0000_0000_0000),
                interval_ok(low as int, high_bound_exclusive as int),
                low == low_bound_inclusive,
                n == high_bound_exclusive - low,
                tame_start == 3 * n / 10,
                wild_offset == n / 2,
                order_ok::<G>(),
                ok == (group_laws::<G>() && G::spec_gen_mul(x0) == element),
                x0 == some_dlog(element),
                y0 == x0 - low - wild_offset,
                0 <= t_distance <= MAX_WALK_DISTANCE,
                0 <= w1_distance <= MAX_WALK_DISTANCE,
                0 <= w2_distance <= MAX_WALK_DISTANCE,
                c == self.conf(jump_table@, low, high_bound_exclusive),
                s0 == three_start(element, low as int, n as int),
                jump_table@.len() == vstd::arithmetic::power2::pow2(self.bucket_bits() as nat),
                three_run(state_of(t, t_distance, w1, w1_distance, w2, w2_distance, tames@, wilds1@, wilds2@, iters, 0), c) == three_run(s0, c),
                three_walks_ok::<G>(ok, y0, tame_start as int, t, t_distance as int, w1,
                    w1_distance as int, w2, w2_distance as int, tames@, wilds1@, wilds2@),
            decreases u64::MAX - iters,
        {
            let ghost sa = state_of(t, t_distance, w1, w1_distance, w2, w2_distance, tames@, wilds1@, wilds2@, iters, 0);
            if iters > u64::MAX - 3 {
                assert(three_run(sa, c) == None::<Solution>);
                return None;
            }
            let tame_bucket = t.bucket(self.phi_bits);
            let (tame_jump_distance, tame_jump) = jump_table[tame_bucket];
            proof {
                if group_laws::<G>() {
                    assert(G::spec_gen_mul(tame_start + t_distance).spec_add(G::spec_gen_mul(
                        tame_jump_distance as int,
                    )) == G::spec_gen_mul(tame_start + t_distance + tame_jump_distance));
                }
            }
            t_distance = t_distance + tame_jump_distance;
            if t_distance > MAX_WALK_DISTANCE {
                assert(three_run(sa, c) == None::<Solution>);
                return None;
            }
            t = t.group_add(&tame_jump);
            iters = iters + 1;
            if t.is_distinguished(self.dp_bits) {
                let tkey = t.key();
                proof {
                    if group_laws::<G>() {
                        lemma_keys_at_insert::<G>(tames@, tame_start as int, t_distance);
                    }
                }
                tames.insert(tkey, t_distance);
                let tame_position = tame_start + t_distance;
                match wilds1.get(&tkey) {
                    Some(found) => {
                        let w1d = *found;
                        proof {
                            lemma_tame_wild1::<G>(element, x0, y0, low as int,
                                high_bound_exclusive as int, wild_offset as int,
                                tame_position as int, w1d as int);
                        }
                        let res = Some(
                            self.collision_tame_wild1(low, wild_offset, tame_position, w1d, iters),
                        );
                        assert(three_run(sa, c) == res);
                        return res;
                    },
                    None => {},
                }
                match wilds2.get(&tkey) {
                    Some(found) => {
                        let w2d = *found;
                        proof {
                            lemma_tame_wild2::<G>(element, x0, y0, low as int,
                                high_bound_exclusive as int, wild_offset as int,
                                tame_position as int, w2d as int);
                        }
                        let res = Some(
                            self.collision_tame_wild2(low, wild_offset, tame_position, w2d, iters),
                        );
                        assert(three_run(sa, c) == res);
                        return res;
                    },
                    None => {},
                }
            }

            let ghost sb = state_of(t, t_distance, w1, w1_distance, w2, w2_distance, tames@, wilds1@, wilds2@, iters, 1);
            assert(three_run(sa, c) == three_run(sb, c));
            let wild1_bucket = w1.bucket(self.phi_bits);
            let (wild1_jump_distance, wild1_jump) = jump_table[wild1_bucket];
            proof {
                if ok {
                    assert(G::spec_gen_mul(y0 + w1_distance).spec_add(G::spec_gen_mul(
                        wild1_jump_distance as int,
                    )) == G::spec_gen_mul(y0 + w1_distance + wild1_jump_distance));
                }
            }
            w1_distance = w1_distance + wild1_jump_distance;
            if w1_distance > MAX_WALK_DISTANCE {
                assert(three_run(sb, c) == None::<Solution>);
                return None;
            }
            w1 = w1.group_add(&wild1_jump);
            iters = iters + 1;
            if w1.is_distinguished(self.dp_bits) {
                let w1key = w1.key();
                proof {
                    if ok {
                        lemma_keys_at_insert::<G>(wilds1@, y0, w1_distance);
                    }
                }
                wilds1.insert(w1key, w1_distance);
                match tames.get(&w1key) {
                    Some(found) => {
                        let td = *found;
                        let tame_position = tame_start + td;
                        proof {
                            lemma_tame_wild1::<G>(element, x0, y0, low as int,
                                high_bound_exclusive as int, wild_offset as int,
                                tame_position as int, w1_distance as int);
                        }
                        let res = Some(
                            self.collision_tame_wild1(
                                low,
                                wild_offset,
                                tame_position,
                                w1_distance,
                                iters,
                            ),
                        );
                        assert(three_run(sb, c) == res);
                        return res;
                    },
                    None => {},
                }
                match wilds2.get(&w1key) {
                    Some(found) => {
                        let w2d = *found;
                        proof {
                            lemma_wild_wild::<G>(element, x0, y0, low as int,
                                high_bound_exclusive as int, wild_offset as int,
                                w1_distance as int, w2d as int);
                        }
                        let res = Some(self.collision_wild(low, n, w1_distance, w2d, iters));
                        assert(three_run(sb, c) == res);
                        return res;
                    },
                    None => {},
                }
            }

            let ghost sc = state_of(t, t_distance, w1, w1_distance, w2, w2_distance, tames@, wilds1@, wilds2@, iters, 2);
            assert(three_run(sb, c) == three_run(sc, c));
            let wild2_bucket = w2.bucket(self.phi_bits);
            let (wild2_jump_distance, wild2_jump) = jump_table[wild2_bucket];
            proof {
                if ok {
                    assert(G::spec_gen_mul(-y0 + w2_distance).spec_add(G::spec_gen_mul(
                        wild2_jump_distance as int,
                    )) == G::spec_gen_mul(-y0 + w2_distance + wild2_jump_distance));
                }
            }
            w2_distance = w2_distance + wild2_jump_distance;
            if w2_distance > MAX_WALK_DISTANCE {
                assert(three_run(sc, c) == None::<Solution>);
                return None;
            }
            w2 = w2.group_add(&wild2_jump);
            iters = iters + 1;
            if w2.is_distinguished(self.dp_bits) {
                let w2key = w2.key();
                proof {
                    if ok {
                        lemma_keys_at_insert::<G>(wilds2@, -y0, w2_distance);
                    }
                }
                wilds2.insert(w2key, w2_distance);
                match tames.get(&w2key) {
                    Some(found) => {
                        let td = *found;
                        let tame_position = tame_start + td;
                        proof {
                            lemma_tame_wild2::<G>(element, x0, y0, low as int,
                                high_bound_exclusive as int, wild_offset as int,
                                tame_position as int, w2_distance as int);
                        }
                        let res = Some(
                            self.collision_tame_wild2(
                                low,
                                wild_offset,
                                tame_position,
                                w2_distance,
                                iters,
                            ),
                        );
                        assert(three_run(sc, c) == res);
                        return res;
                    },
                    None => {},
                }
                match wilds1.get(&w2key) {
                    Some(found) => {
                        let w1d = *found;
                        proof {
                            lemma_wild_wild::<G>(element, x0, y0, low as int,
                                high_bound_exclusive as int, wild_offset as int, w1d as int,
                                w2_distance as int);
                        }
                        let res = Some(self.collision_wild(low, n, w1d, w2_distance, iters));
                        assert(three_run(sc, c) == res);
                        return res;
                    },
                    None => {},
                }
            }
            assert(three_run(sc, c) == three_run(state_of(t, t_distance, w1, w1_distance, w2, w2_distance, tames@, wilds1@, wilds2@, iters, 0), c));
        }
    }
}

impl<G: KangarooGroup> DiscreteLogSolver<G> for PollardThreeKangarooSolver {
    open spec fn accepts(&self, low: int, high: int) -> bool {
        &&& 0 < self.bucket_bits() <= 30
        &&& 0 < self.dp_bits() < 64
        &&& high - low >= 2
    }

    /// An answer is the run with a jump table drawn for the interval: a
    /// table from draws within the bounds for `[low, high)`, given to
    /// `run_walks`.
    open spec fn outcome(&self, low: int, high: int, element: G, r: Option<Solution>) -> bool {
        r is Some ==> exists|ds: Seq<i64>, table: Seq<(i64, G)>, bh: int, sum: int|
            #![trigger is_uniform_jump_table(ds, bh, sum, self.bucket_bits()), self.table_run(table, element, low as i64, high as i64)]
            jump_bounds_ok(high - low, 9, 64, self.bucket_bits(), bh, sum)
                && is_uniform_jump_table(ds, bh, sum, self.bucket_bits())
                && table.len() == ds.len()
                && (forall|i: int| 0 <= i < ds.len() ==> #[trigger] table[i].0 == ds[i])
                && self.table_run(table, element, low as i64, high as i64) == r
    }

    fn solve(
        &self,
        low_bound_inclusive: i64,
        high_bound_exclusive: i64,
        element: G,
        rng: &mut Xoshiro256PlusPlus,
    ) -> (r: Option<Solution>)
        ensures
            r is Some ==> exists|ds: Seq<i64>, table: Seq<(i64, G)>, high: int, sum: int|
                #![trigger is_uniform_jump_table(ds, high, sum, self.bucket_bits()), self.table_run(table, element, low_bound_inclusive, high_bound_exclusive)]
                jump_bounds_ok(high_bound_exclusive - low_bound_inclusive, 9, 64, self.bucket_bits(), high, sum)
                    && is_uniform_jump_table(ds, high, sum, self.bucket_bits())
                    && table.len() == ds.len()
                    && (forall|i: int| 0 <= i < ds.len() ==> #[trigger] table[i].0 == ds[i])
                    && self.table_run(table, element, low_bound_inclusive, high_bound_exclusive) == r,
    {
        let r = self.walks(low_bound_inclusive, high_bound_exclusive, element, rng);
        proof {
            if r is Some {
                let (ds, table, bh, sum) = choose|ds: Seq<i64>, table: Seq<(i64, G)>, bh: int, sum: int|
                    #![trigger is_uniform_jump_table(ds, bh, sum, self.bucket_bits()), self.table_run(table, element, low_bound_inclusive, high_bound_exclusive)]
                    jump_bounds_ok(high_bound_exclusive - low_bound_inclusive, 9, 64, self.bucket_bits(), bh, sum)
                        && is_uniform_jump_table(ds, bh, sum, self.bucket_bits())
                        && table.len() == ds.len()
                        && (forall|i: int| 0 <= i < ds.len() ==> #[trigger] table[i].0 == ds[i])
                        && self.table_run(table, element, low_bound_inclusive, high_bound_exclusive) == r;
                assert(self.table_run(
                    table,
                    element,
                    (low_bound_inclusive as int) as i64,
                    (high_bound_exclusive as int) as i64,
                ) == r);
                assert(is_uniform_jump_table(ds, bh, sum, self.bucket_bits()));
            }
        }
        proof {
            if has_log_in(element, low_bound_inclusive as int, high_bound_exclusive as int)
                && r is Some {
                lemma_exact_near(
                    element,
                    low_bound_inclusive as int,
                    high_bound_exclusive as int,
                    low_bound_inclusive + (high_bound_exclusive - low_bound_inclusive) / 2,
                    r->0.dlog as int,
                );
            }
        }
        r
    }
}

/// Tame point `tame * G` equals the first wild point `(y + w1d) * G`.
proof fn lemma_tame_wild1<G: KangarooGroup>(
    element: G,
    x0: int,
    y: int,
    low: int,
    high: int,
    wild_offset: int,
    tame: int,
    w1d: int,
)
    requires
        x0 == some_dlog(element),
        y == x0 - low - wild_offset,
        group_laws::<G>() && G::spec_gen_mul(x0) == element ==> G::spec_gen_mul(y + w1d).spec_key()
            == G::spec_gen_mul(tame).spec_key(),
    ensures
        solves_interval(element, low, high, low + wild_offset + tame - w1d),
{
    let r = low + wild_offset + tame - w1d;
    if group_laws::<G>() && G::spec_gen_mul(x0) == element {
        let q = G::spec_order();
        lemma_same_key::<G>(y + w1d, tame);
        assert(y - -w1d == y + w1d);
        lemma_unshift(tame, y, -w1d, q);
        lemma_unshift(tame - w1d, x0, low + wild_offset, q);
        assert(x0 - (low + wild_offset) == y);
    }
    crate::dlp::lemma_solves_from_witness(element, r);
    crate::dlp::lemma_solves_interval(element, low, high, r);
}

/// Tame point `tame * G` equals the second wild point `(-y + w2d) * G`.
proof fn lemma_tame_wild2<G: KangarooGroup>(
    element: G,
    x0: int,
    y: int,
    low: int,
    high: int,
    wild_offset: int,
    tame: int,
    w2d: int,
)
    requires
        x0 == some_dlog(element),
        y == x0 - low - wild_offset,
        group_laws::<G>() && G::spec_gen_mul(x0) == element ==> G::spec_gen_mul(-y + w2d).spec_key()
            == G::spec_gen_mul(tame).spec_key(),
    ensures
        solves_interval(element, low, high, low + wild_offset + w2d - tame),
{
    let r = low + wild_offset + w2d - tame;
    if group_laws::<G>() && G::spec_gen_mul(x0) == element {
        let q = G::spec_order();
        lemma_same_key::<G>(-y + w2d, tame);
        lemma_neg_congruence(-y + w2d, tame, q);
        assert(-(-y + w2d) == y - w2d);
        lemma_unshift(-tame, y, w2d, q);
        lemma_unshift(w2d - tame, x0, low + wild_offset, q);
        assert(x0 - (low + wild_offset) == y);
    }
    crate::dlp::lemma_solves_from_witness(element, r);
    crate::dlp::lemma_solves_interval(element, low, high, r);
}

/// The wild points `(y + w1d) * G` and `(-y + w2d) * G` coincide: with the
/// walks short enough, `2y == w2d - w1d` exactly, and the answer is exact.
proof fn lemma_wild_wild<G: KangarooGroup>(
    element: G,
    x0: int,
    y0: int,
    low: int,
    high: int,
    wild_offset: int,
    w1d: int,
    w2d: int,
)
    requires
        x0 == some_dlog(element),
        y0 == x0 - low - wild_offset,
        interval_ok(low, high),
        wild_offset == (high - low) / 2,
        0 <= w1d <= MAX_WALK_DISTANCE,
        0 <= w2d <= MAX_WALK_DISTANCE,
        order_ok::<G>(),
        group_laws::<G>() && G::spec_gen_mul(x0) == element ==> G::spec_gen_mul(y0 + w1d).spec_key()
            == G::spec_gen_mul(-y0 + w2d).spec_key(),
    ensures
        solves_interval(element, low, high, low + half_toward_zero((high - low) + w2d - w1d)),
{
    let n = high - low;
    let r = low + half_toward_zero(n + w2d - w1d);
    assert forall|x: int|
        #![trigger G::spec_gen_mul(x)]
        group_laws::<G>() && G::spec_gen_mul(x) == element && low <= x < high implies r
        % G::spec_order() == x % G::spec_order() by {
        let q = G::spec_order();
        assert(G::spec_gen_mul(x) == G::spec_gen_mul(x0));
        let y = x - low - wild_offset;
        // y + w1d == -y + w2d (mod q), with y0 == y (mod q)
        lemma_same_key::<G>(y0 + w1d, -y0 + w2d);
        assert((y0 + w1d) % q == (-y0 + w2d) % q);
        assert(x % q == x0 % q);
        lemma_sub_mod_noop(x, low + wild_offset, q);
        lemma_sub_mod_noop(x0, low + wild_offset, q);
        assert(y % q == y0 % q);
        lemma_add_mod_noop(y, w1d, q);
        lemma_add_mod_noop(y0, w1d, q);
        lemma_neg_congruence(y, y0, q);
        lemma_add_mod_noop(-y, w2d, q);
        lemma_add_mod_noop(-y0, w2d, q);
        assert((y + w1d) % q == (-y + w2d) % q);
        lemma_exact(y + w1d, -y + w2d, q);
        assert(2 * y == w2d - w1d);
        assert(n + w2d - w1d == 2 * (x - low) + (n - 2 * wild_offset));
        assert((n + w2d - w1d) / 2 == x - low);
        assert(half_toward_zero(n + w2d - w1d) == x - low);
    }
}

} // verus!
