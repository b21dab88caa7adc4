//! Pollard's kangaroo with one tame and one wild walk, a random jump table
//! of mean `sqrt(N) / 2`, and distinguished points.
use std::collections::HashMap;
use vstd::prelude::*;

use crate::dlog::solver::{DiscreteLogSolver, Solution};
use crate::dlp::jump::{
    generate_uniform_jump_table_distances, is_uniform_jump_table, jump_bounds_ok, jump_table, jumps_ok,
    lemma_table_sum_bound,
    uniform_jump_table_bounds,
};
use crate::dlp::{
    has_log_in, interval_ok, keys_at, lemma_exact_near, lemma_keys_at_insert, lemma_same_key,
    lemma_unshift, order_ok, solves_interval, some_dlog, MAX_DISTANCE,
};
use crate::group::helpers::generator_scalar_mul_i64;
use crate::group::{group_laws, signed_gen_mul, KangarooGroup};
use rand::rngs::Xoshiro256PlusPlus;

verus! {

broadcast use vstd::std_specs::hash::group_hash_axioms;

/// The two-kangaroo solver with `2^bucket_bits` jumps and distinguished
/// points of `dp_bits` bits.
pub struct PollardKangarooSolver {
    phi_bits: u32,
    dp_bits: u32,
}

impl PollardKangarooSolver {
    /// A solver with a jump table of `2^bucket_bits` entries and
    /// distinguished points of `dp_bits` bits.
    pub fn new(bucket_bits: u32, dp_bits: u32) -> (r: Self)
        ensures
            r.bucket_bits() == bucket_bits,
            r.dp_bits() == dp_bits,
    {
        PollardKangarooSolver { phi_bits: bucket_bits, dp_bits }
    }

    /// The number of jump-table bits.
    pub closed spec fn bucket_bits(&self) -> u32 {
        self.phi_bits
    }

    /// The number of distinguished-point bits.
    pub closed spec fn dp_bits(&self) -> u32 {
        self.dp_bits
    }

    /// A tame point at `tame_distance` meets a wild point at `wild_distance`:
    /// `x = tame_distance - wild_distance`.
    fn collision(&self, tame_distance: i64, wild_distance: i64, iters: u64) -> (r: Solution)
        requires
            i64::MIN <= tame_distance - wild_distance <= i64::MAX,
        ensures
            r.dlog == tame_distance - wild_distance,
            r.iters == iters,
    {
        Solution { dlog: tame_distance - wild_distance, iters }
    }
}

/// The state of the two walks between two moves: the points and distances
/// of the tame and the wild walk, the tables of their distinguished points,
/// the operation count and whose move is next (`0` tame, `1` wild).
pub struct TwoState<G> {
    pub t: G,
    pub td: i64,
    pub w: G,
    pub wd: i64,
    pub tames: Map<u128, i64>,
    pub wilds: Map<u128, i64>,
    pub iters: u64,
    pub turn: u8,
}

/// What a run is made with: the jump table, the bucket and
/// distinguished-point bits, and where the tame walk starts.
pub struct TwoConf<G> {
    pub table: Seq<(i64, G)>,
    pub bucket_bits: u32,
    pub dp_bits: u32,
    pub tame_start: i64,
}

/// The outcome of one move: the run ends with an answer, or goes on.
pub enum TwoMove<G> {
    Done(Option<Solution>),
    Next(TwoState<G>),
}

/// The state before the first move: the tame walk at `tame_start * G`, the
/// wild walk at the target, distances `0`, no points stored.
pub open spec fn two_start<G: KangarooGroup>(element: G, tame_start: int) -> TwoState<G> {
    TwoState {
        t: signed_gen_mul::<G>(tame_start),
        td: 0,
        w: element,
        wd: 0,
        tames: Map::empty(),
        wilds: Map::empty(),
        iters: 0,
        turn: 0,
    }
}

/// The answer of a tame point at `tame_start + td` meeting a wild point at
/// distance `wd`: `tame_start + td - wd`, or none when that leaves `i64`.
pub open spec fn two_answer(tame_position: int, wd: int, iters: u64) -> Option<Solution> {
    if i64::MIN <= tame_position <= i64::MAX && i64::MIN <= tame_position - wd <= i64::MAX {
        Some(Solution { dlog: (tame_position - wd) as i64, iters })
    } else {
        None
    }
}

/// One move of the walk whose turn it is: a jump by the table entry of its
/// point's bucket (one group operation); a distinguished point is stored
/// and looked up in the other walk's table. The run gives up before a tame
/// move when the counter is within `2` of `u64::MAX`, and when a distance
/// would pass `MAX_DISTANCE`.
pub open spec fn two_move<G: KangarooGroup>(s: TwoState<G>, c: TwoConf<G>) -> TwoMove<G> {
    let iters = (s.iters + 1) as u64;
    if s.turn == 0 {
        let jump = c.table[s.t.spec_bucket(c.bucket_bits) as int];
        let td = s.td + jump.0;
        let t = s.t.spec_add(jump.1);
        if s.iters > u64::MAX - 2 || td > MAX_DISTANCE {
            TwoMove::Done(None)
        } else if t.spec_is_distinguished(c.dp_bits) {
            let k = t.spec_key();
            if s.wilds.contains_key(k) {
                TwoMove::Done(two_answer(c.tame_start + td, s.wilds[k] as int, iters))
            } else {
                TwoMove::Next(TwoState { t, td: td as i64, tames: s.tames.insert(k, td as i64), iters, turn: 1, ..s })
            }
        } else {
            TwoMove::Next(TwoState { t, td: td as i64, iters, turn: 1, ..s })
        }
    } else {
        let jump = c.table[s.w.spec_bucket(c.bucket_bits) as int];
        let wd = s.wd + jump.0;
        let w = s.w.spec_add(jump.1);
        if wd > MAX_DISTANCE {
            TwoMove::Done(None)
        } else if w.spec_is_distinguished(c.dp_bits) {
            let k = w.spec_key();
            if s.tames.contains_key(k) {
                TwoMove::Done(two_answer(c.tame_start + s.tames[k], wd, iters))
            } else {
                TwoMove::Next(TwoState { w, wd: wd as i64, wilds: s.wilds.insert(k, wd as i64), iters, turn: 0, ..s })
            }
        } else {
            TwoMove::Next(TwoState { w, wd: wd as i64, iters, turn: 0, ..s })
        }
    }
}

/// The run from state `s`: moves until one ends it. Every move counts one
/// group operation, so `iters` of the answer is the number of jumps made.
pub open spec fn two_run<G: KangarooGroup>(s: TwoState<G>, c: TwoConf<G>) -> Option<Solution>
    decreases u64::MAX - s.iters,
{
    match two_move(s, c) {
        TwoMove::Done(r) => r,
        TwoMove::Next(s2) => if s2.iters > s.iters {
            two_run(s2, c)
        } else {
            None
        },
    }
}

/// The state after `k` moves from `s`, while none of them ended the run.
pub open spec fn two_after<G: KangarooGroup>(s: TwoState<G>, c: TwoConf<G>, k: nat) -> Option<TwoState<G>>
    decreases k,
{
    if k == 0 {
        Some(s)
    } else {
        match two_move(s, c) {
            TwoMove::Next(s2) => two_after(s2, c, (k - 1) as nat),
            TwoMove::Done(_) => None,
        }
    }
}

/// The run from `s` ends with the answer `sol` at its move number `k + 1`.
pub open spec fn two_ends_at<G: KangarooGroup>(s: TwoState<G>, c: TwoConf<G>, k: nat, sol: Solution) -> bool {
    two_after(s, c, k) matches Some(e) && two_move(e, c) == TwoMove::<G>::Done(Some(sol))
}

/// Every move counts one group operation, the tame walk's and the wild
/// walk's alike: an answer of the run from `s` comes at some move `k + 1`
/// and counts `s.iters + k + 1` operations.
pub proof fn lemma_two_run_count<G: KangarooGroup>(s: TwoState<G>, c: TwoConf<G>, sol: Solution)
    requires
        two_run(s, c) == Some(sol),
        s.turn == 0 || (s.turn == 1 && s.iters <= u64::MAX - 1),
    ensures
        exists|k: nat| #[trigger] two_ends_at(s, c, k, sol) && sol.iters == s.iters + k + 1,
    decreases u64::MAX - s.iters,
{
    match two_move(s, c) {
        TwoMove::Done(r) => {
            assert(two_after(s, c, 0) == Some(s));
            assert(two_ends_at(s, c, 0, sol));
        },
        TwoMove::Next(s2) => {
            lemma_two_run_count(s2, c, sol);
            let k2 = choose|k: nat| #[trigger] two_ends_at(s2, c, k, sol) && sol.iters == s2.iters + k + 1;
            assert(two_after(s, c, k2 + 1) == two_after(s2, c, k2));
            assert(two_ends_at(s, c, k2 + 1, sol));
        },
    }
}

/// From the start, an answer counts exactly the moves made by both walks
/// until they met.
pub proof fn lemma_two_answer_count<G: KangarooGroup>(element: G, tame_start: int, c: TwoConf<G>, sol: Solution)
    requires
        two_run(two_start(element, tame_start), c) == Some(sol),
    ensures
        exists|k: nat| #[trigger] two_ends_at(two_start(element, tame_start), c, k, sol) && sol.iters == k + 1,
{
    lemma_two_run_count(two_start(element, tame_start), c, sol);
}

/// The state made of the walks' current values.
spec fn two_state_of<G>(
    t: G,
    td: i64,
    w: G,
    wd: i64,
    tames: Map<u128, i64>,
    wilds: Map<u128, i64>,
    iters: u64,
    turn: u8,
) -> TwoState<G> {
    TwoState { t, td, w, wd, tames, wilds, iters, turn }
}

impl PollardKangarooSolver {
    /// The walks from the middle of the interval: an answer is congruent to
    /// the logarithm and within `MAX_DISTANCE` of the tame start.
    fn walks<G: KangarooGroup>(
        &self,
        low_bound_inclusive: i64,
        high_bound_exclusive: i64,
        element: G,
        rng: &mut Xoshiro256PlusPlus,
    ) -> (r: Option<Solution>)
        requires
            interval_ok(low_bound_inclusive as int, high_bound_exclusive as int),
            order_ok::<G>(),
            0 < self.bucket_bits() <= 30,
            0 < self.dp_bits() < 64,
            high_bound_exclusive - low_bound_inclusive >= 2,
        ensures
            r matches Some(s) ==> solves_interval(
                element,
                low_bound_inclusive as int,
                high_bound_exclusive as int,
                s.dlog as int,
            ),
            r matches Some(s) ==> -MAX_DISTANCE <= s.dlog - (low_bound_inclusive + (
            high_bound_exclusive - low_bound_inclusive) / 2) <= MAX_DISTANCE,
            r is Some ==> exists|ds: Seq<i64>, table: Seq<(i64, G)>, high: int, sum: int|
                #![trigger is_uniform_jump_table(ds, high, sum, self.bucket_bits()), self.table_run(table, element, low_bound_inclusive, high_bound_exclusive)]
                jump_bounds_ok(high_bound_exclusive - low_bound_inclusive, 1, 4, self.bucket_bits(), high, sum)
                    && is_uniform_jump_table(ds, high, sum, self.bucket_bits())
                    && table.len() == ds.len()
                    && (forall|i: int| 0 <= i < ds.len() ==> #[trigger] table[i].0 == ds[i])
                    && self.table_run(table, element, low_bound_inclusive, high_bound_exclusive) == r,
    {
        let n = high_bound_exclusive - low_bound_inclusive;
        let (high, expected_sum) = uniform_jump_table_bounds(n, 1, 4, self.phi_bits);
        assert(high >= 2) by (nonlinear_arith)
            requires
                high * high * 4 >= 4 * n * 1,
                n >= 2,
                high >= 0,
        {
            if high <= 1 {
                assert(high * high <= 1);
            }
        }
        let jump_table_distances = generate_uniform_jump_table_distances(
            high,
            expected_sum,
            self.phi_bits,
            rng,
        )?;
        proof {
            assert(4 * 0x2000_0000_0000_0000int * 1 * 0x1000_0000_0000_0000int < (2 * 0x1000_0000_0000_0000int - 1) * (2 * 0x1000_0000_0000_0000int - 1) * 4) by (nonlinear_arith);
            lemma_table_sum_bound(n as int, 1, 4, self.phi_bits, high as int, expected_sum as int, 0x1000_0000_0000_0000);
            assert forall|i: int| 0 <= i < jump_table_distances@.len() implies 1 <= #[trigger] jump_table_distances@[i]
                && jump_table_distances@[i] * 1 <= 0x1000_0000_0000_0000 by {
                assert(jump_table_distances@[i] <= expected_sum);
            }
        }
        let jump_table: Vec<(i64, G)> = jump_table(&jump_table_distances, 1);

        let r = self.run_walks(low_bound_inclusive, high_bound_exclusive, element, &jump_table);
        proof {
            if r is Some {
                assert(self.table_run(jump_table@, element, low_bound_inclusive, high_bound_exclusive)
                    == r);
                assert(is_uniform_jump_table(jump_table_distances@, high as int, expected_sum as int, self.bucket_bits()));
            }
        }
        r
    }

    /// The configuration of a run with the table `table` on `[low, high)`.
    pub open spec fn conf<G: KangarooGroup>(&self, table: Seq<(i64, G)>, low: i64, high: i64) -> TwoConf<G> {
        TwoConf {
            table,
            bucket_bits: self.bucket_bits(),
            dp_bits: self.dp_bits(),
            tame_start: (low + (high - low) / 2) as i64,
        }
    }

    /// With a table of `2^bucket_bits` jumps, each `d` in `1..=2^58` with
    /// its point, the run on `element` and `[low, high)`; `None` for any
    /// other table.
    pub open spec fn table_run<G: KangarooGroup>(
        &self,
        table: Seq<(i64, G)>,
        element: G,
        low: i64,
        high: i64,
    ) -> Option<Solution> {
        if table.len() == vstd::arithmetic::power2::pow2(self.bucket_bits() as nat) && jumps_ok(
            table,
            0x1000_0000_0000_0000,
        ) {
            two_run(two_start(element, low + (high - low) / 2), self.conf(table, low, high))
        } else {
            None
        }
    }

    /// The walks with the jump table `jump_table`: exactly the run
    /// `two_run` from the start on the target (so `iters` is the number of
    /// jumps until the first collision), an answer congruent to the
    /// logarithm and within `MAX_DISTANCE` of the tame start.
    #[verifier::rlimit(100)]
    #[verifier::spinoff_prover]
    pub fn run_walks<G: KangarooGroup>(
        &self,
        low_bound_inclusive: i64,
        high_bound_exclusive: i64,
        element: G,
        jump_table: &Vec<(i64, G)>,
    ) -> (r: Option<Solution>)
        requires
            interval_ok(low_bound_inclusive as int, high_bound_exclusive as int),
            order_ok::<G>(),
            0 < self.bucket_bits() <= 30,
            0 < self.dp_bits() < 64,
            high_bound_exclusive - low_bound_inclusive >= 2,
            jump_table@.len() == vstd::arithmetic::power2::pow2(self.bucket_bits() as nat),
            jumps_ok(jump_table@, 0x1000_0000_0000_0000),
        ensures
            r == two_run(
                two_start(element, low_bound_inclusive + (high_bound_exclusive - low_bound_inclusive) / 2),
                self.conf(jump_table@, low_bound_inclusive, high_bound_exclusive),
            ),
            r matches Some(s) ==> solves_interval(
                element,
                low_bound_inclusive as int,
                high_bound_exclusive as int,
                s.dlog as int,
            ),
            r matches Some(s) ==> -MAX_DISTANCE <= s.dlog - (low_bound_inclusive + (
            high_bound_exclusive - low_bound_inclusive) / 2) <= MAX_DISTANCE,
    {
        let ghost x0 = some_dlog(element);
        let ghost ok = group_laws::<G>() && G::spec_gen_mul(x0) == element;
        let n = high_bound_exclusive - low_bound_inclusive;
        let tame_start = low_bound_inclusive + (n / 2);
        let mut iters: u64 = 0;
        let mut t = generator_scalar_mul_i64::<G>(tame_start);
        let mut t_distance: i64 = 0;
        let mut w = element;
        let mut w_distance: i64 = 0;
        let mut tames: HashMap<u128, i64> = HashMap::new();
        let mut wilds: HashMap<u128, i64> = HashMap::new();

        let ghost c = self.conf(jump_table@, low_bound_inclusive, high_bound_exclusive);
        let ghost s0 = two_start(element, tame_start as int);
        assert(two_state_of(t, t_distance, w, w_distance, tames@, wilds@, iters, 0) == s0);
        loop
            invariant
                0 < self.phi_bits <= 30,
                0 < self.dp_bits < 64,
                jump_table@.len() == vstd::arithmetic::power2::pow2(self.phi_bits as nat),
                jumps_ok(jump_table@, 0x1000_0000_0000_0000),
                -0x4000_0000_0000_0000 <= tame_start <= 0x4000_0000_0000_0000,
                ok == (group_laws::<G>() && G::spec_gen_mul(x0) == element),
                x0 == some_dlog(element),
                group_laws::<G>() ==> t == G::spec_gen_mul(tame_start + t_distance),
                ok ==> w == G::spec_gen_mul(x0 + w_distance),
                group_laws::<G>() ==> keys_at::<G>(tames@, tame_start as int),
                ok ==> keys_at::<G>(wilds@, x0),
                0 <= t_distance <= MAX_DISTANCE,
                0 <= w_distance <= MAX_DISTANCE,
                forall|k: u128| #[trigger] tames@.contains_key(k) ==> 0 <= tames@[k] <= MAX_DISTANCE,
                forall|k: u128| #[trigger] wilds@.contains_key(k) ==> 0 <= wilds@[k] <= MAX_DISTANCE,
                tame_start == low_bound_inclusive + (high_bound_exclusive - low_bound_inclusive) / 2,
                c == self.conf(jump_table@, low_bound_inclusive, high_bound_exclusive),
                s0 == two_start(element, tame_start as int),
                jump_table@.len() == vstd::arithmetic::power2::pow2(self.bucket_bits() as nat),
                two_run(two_state_of(t, t_distance, w, w_distance, tames@, wilds@, iters, 0), c) == two_run(s0, c),
            decreases u64::MAX - iters,
        {
            let ghost sa = two_state_of(t, t_distance, w, w_distance, tames@, wilds@, iters, 0);
            if iters > u64::MAX - 2 {
                assert(two_run(sa, c) == None::<Solution>);
                return None;
            }
            let tame_bucket = t.bucket(self.phi_bits);
            let (tame_jump_distance, tame_jump) = jump_table[tame_bucket];
            proof {
                if group_laws::<G>() {
                    assert(G::spec_gen_mul(tame_start + t_distance).spec_add(G::spec_gen_mul(
                        tame_jump_distance as int,
                    )) == G::spec_gen_mul(tame_start + t_distance + tame_jump_distance));
                }
            }
            t_distance = t_distance + tame_jump_distance;
            if t_distance > MAX_DISTANCE {
                assert(two_run(sa, c) == None::<Solution>);
                return None;
            }
            t = t.group_add(&tame_jump);
            iters = iters + 1;
            if t.is_distinguished(self.dp_bits) {
                let tkey = t.key();
                proof {
                    if group_laws::<G>() {
                        lemma_keys_at_insert::<G>(tames@, tame_start as int, t_distance);
                    }
                }
                tames.insert(tkey, t_distance);
                match wilds.get(&tkey) {
                    Some(found) => {
                        let wild_distance = *found;
                        let tame_position = match tame_start.checked_add(t_distance) {
                            Some(v) => v,
                            None => {
                                assert(two_run(sa, c) == None::<Solution>);
                                return None;
                            },
                        };
                        if tame_position.checked_sub(wild_distance).is_none() {
                            assert(two_run(sa, c) == None::<Solution>);
                            return None;
                        }
                        let solution = self.collision(tame_position, wild_distance, iters);
                        proof {
                            lemma_found_tame_wild::<G>(element, x0, tame_position as int,
                                wild_distance as int, low_bound_inclusive as int,
                                high_bound_exclusive as int);
                        }
                        assert(two_run(sa, c) == Some(solution));
                        return Some(solution);
                    },
                    None => {},
                }
            }

            let ghost sb = two_state_of(t, t_distance, w, w_distance, tames@, wilds@, iters, 1);
            assert(two_run(sa, c) == two_run(sb, c));
            let wild_bucket = w.bucket(self.phi_bits);
            let (wild_jump_distance, wild_jump) = jump_table[wild_bucket];
            proof {
                if ok {
                    assert(G::spec_gen_mul(x0 + w_distance).spec_add(G::spec_gen_mul(
                        wild_jump_distance as int,
                    )) == G::spec_gen_mul(x0 + w_distance + wild_jump_distance));
                }
            }
            w_distance = w_distance + wild_jump_distance;
            if w_distance > MAX_DISTANCE {
                assert(two_run(sb, c) == None::<Solution>);
                return None;
            }
            w = w.group_add(&wild_jump);
            iters = iters + 1;
            if w.is_distinguished(self.dp_bits) {
                let wkey = w.key();
                proof {
                    if ok {
                        lemma_keys_at_insert::<G>(wilds@, x0, w_distance);
                    }
                }
                wilds.insert(wkey, w_distance);
                match tames.get(&wkey) {
                    Some(found) => {
                        let tame_distance = *found;
                        let tame_position = match tame_start.checked_add(tame_distance) {
                            Some(v) => v,
                            None => {
                                assert(two_run(sb, c) == None::<Solution>);
                                return None;
                            },
                        };
                        if tame_position.checked_sub(w_distance).is_none() {
                            assert(two_run(sb, c) == None::<Solution>);
                            return None;
                        }
                        let solution = self.collision(tame_position, w_distance, iters);
                        proof {
                            lemma_found_tame_wild::<G>(element, x0, tame_position as int,
                                w_distance as int, low_bound_inclusive as int,
                                high_bound_exclusive as int);
                        }
                        assert(two_run(sb, c) == Some(solution));
                        return Some(solution);
                    },
                    None => {},
                }
            }
            assert(two_run(sb, c) == two_run(two_state_of(t, t_distance, w, w_distance, tames@, wilds@, iters, 0), c));
        }
    }
}

impl<G: KangarooGroup> DiscreteLogSolver<G> for PollardKangarooSolver {
    open spec fn accepts(&self, low: int, high: int) -> bool {
        &&& 0 < self.bucket_bits() <= 30
        &&& 0 < self.dp_bits() < 64
        &&& high - low >= 2
    }

    /// An answer is the run with a jump table drawn for the interval: a
    /// table from draws within the bounds for `[low, high)`, given to
    /// `run_walks`.
    open spec fn outcome(&self, low: int, high: int, element: G, r: Option<Solution>) -> bool {
        r is Some ==> exists|ds: Seq<i64>, table: Seq<(i64, G)>, bh: int, sum: int|
            #![trigger is_uniform_jump_table(ds, bh, sum, self.bucket_bits()), self.table_run(table, element, low as i64, high as i64)]
            jump_bounds_ok(high - low, 1, 4, self.bucket_bits(), bh, sum)
                && is_uniform_jump_table(ds, bh, sum, self.bucket_bits())
                && table.len() == ds.len()
                && (forall|i: int| 0 <= i < ds.len() ==> #[trigger] table[i].0 == ds[i])
                && self.table_run(table, element, low as i64, high as i64) == r
    }

    fn solve(
        &self,
        low_bound_inclusive: i64,
        high_bound_exclusive: i64,
        element: G,
        rng: &mut Xoshiro256PlusPlus,
    ) -> (r: Option<Solution>)
        ensures
            r is Some ==> exists|ds: Seq<i64>, table: Seq<(i64, G)>, high: int, sum: int|
                #![trigger is_uniform_jump_table(ds, high, sum, self.bucket_bits()), self.table_run(table, element, low_bound_inclusive, high_bound_exclusive)]
                jump_bounds_ok(high_bound_exclusive - low_bound_inclusive, 1, 4, self.bucket_bits(), high, sum)
                    && is_uniform_jump_table(ds, high, sum, self.bucket_bits())
                    && table.len() == ds.len()
                    && (forall|i: int| 0 <= i < ds.len() ==> #[trigger] table[i].0 == ds[i])
                    && self.table_run(table, element, low_bound_inclusive, high_bound_exclusive) == r,
    {
        let r = self.walks(low_bound_inclusive, high_bound_exclusive, element, rng);
        proof {
            if r is Some {
                let (ds, table, bh, sum) = choose|ds: Seq<i64>, table: Seq<(i64, G)>, bh: int, sum: int|
                    #![trigger is_uniform_jump_table(ds, bh, sum, self.bucket_bits()), self.table_run(table, element, low_bound_inclusive, high_bound_exclusive)]
                    jump_bounds_ok(high_bound_exclusive - low_bound_inclusive, 1, 4, self.bucket_bits(), bh, sum)
                        && is_uniform_jump_table(ds, bh, sum, self.bucket_bits())
                        && table.len() == ds.len()
                        && (forall|i: int| 0 <= i < ds.len() ==> #[trigger] table[i].0 == ds[i])
                        && self.table_run(table, element, low_bound_inclusive, high_bound_exclusive) == r;
                assert(self.table_run(
                    table,
                    element,
                    (low_bound_inclusive as int) as i64,
                    (high_bound_exclusive as int) as i64,
                ) == r);
                assert(is_uniform_jump_table(ds, bh, sum, self.bucket_bits()));
            }
        }
        proof {
            if has_log_in(element, low_bound_inclusive as int, high_bound_exclusive as int)
                && r is Some {
                lemma_exact_near(
                    element,
                    low_bound_inclusive as int,
                    high_bound_exclusive as int,
                    low_bound_inclusive + (high_bound_exclusive - low_bound_inclusive) / 2,
                    r->0.dlog as int,
                );
            }
        }
        r
    }
}

/// A tame point `tame * G` equal to a wild point `(x0 + wild) * G` solves the
/// problem with `tame - wild`.
proof fn lemma_found_tame_wild<G: KangarooGroup>(
    element: G,
    x0: int,
    tame: int,
    wild: int,
    low: int,
    high: int,
)
    requires
        x0 == some_dlog(element),
        group_laws::<G>() && G::spec_gen_mul(x0) == element ==> G::spec_gen_mul(x0 + wild).spec_key()
            == G::spec_gen_mul(tame).spec_key(),
    ensures
        solves_interval(element, low, high, tame - wild),
{
    if group_laws::<G>() && G::spec_gen_mul(x0) == element {
        lemma_same_key::<G>(x0 + wild, tame);
        assert(x0 - -wild == x0 + wild);
        lemma_unshift(tame, x0, -wild, G::spec_order());
    }
    crate::dlp::lemma_solves_from_witness(element, tame - wild);
    crate::dlp::lemma_solves_interval(element, low, high, tame - wild);
}

} // verus!
