//! Interval solvers that walk with jump tables and store only distinguished
//! points, and the driver that samples random instances for them.
use vstd::prelude::*;

use crate::dlp::{has_log_in, interval_ok, is_log_in, order_ok, solves_interval};
use crate::group::helpers::generator_scalar_mul_i64;
use crate::group::{negation_map_law, signed_gen_mul, KangarooGroup};
use crate::rng::random_range_i64;
use rand::rngs::Xoshiro256PlusPlus;

pub mod gaudry_schost_sim;
pub mod pollard_four_kangaroo;
pub mod pollard_kangaroo;
pub mod pollard_three_kangaroo;

verus! {

/// A recovered discrete logarithm and the number of group operations spent.
pub struct Solution {
    pub dlog: i64,
    pub iters: u64,
}

/// An interval solver in the `[l, h), Q` calling convention, on the group
/// `G`.
pub trait DiscreteLogSolver<G: KangarooGroup> {
    /// The solver's own requirements on the interval and its parameters.
    spec fn accepts(&self, low: int, high: int) -> bool;

    /// `r` is what a run of the solver on `element` and `[low, high)` can
    /// return: the solver's account of its run, over the values it drew.
    spec fn outcome(&self, low: int, high: int, element: G, r: Option<Solution>) -> bool;

    /// Recovers `x` from `element = x * G` with `low <= x < high`. An answer
    /// is congruent to every such `x` modulo the group order, and is `x`
    /// itself when `x` exists (in a group whose negation map picks one of
    /// `P` and `-P`). `None` stands for a run whose counters or distances
    /// would leave their ranges.
    fn solve(
        &self,
        low_bound_inclusive: i64,
        high_bound_exclusive: i64,
        element: G,
        rng: &mut Xoshiro256PlusPlus,
    ) -> (r: Option<Solution>)
        requires
            interval_ok(low_bound_inclusive as int, high_bound_exclusive as int),
            order_ok::<G>(),
            self.accepts(low_bound_inclusive as int, high_bound_exclusive as int),
        ensures
            r matches Some(s) ==> solves_interval(
                element,
                low_bound_inclusive as int,
                high_bound_exclusive as int,
                s.dlog as int,
            ),
            has_log_in(element, low_bound_inclusive as int, high_bound_exclusive as int)
                && negation_map_law::<G>() ==> (r matches Some(s) ==> is_log_in(
                element,
                low_bound_inclusive as int,
                high_bound_exclusive as int,
                s.dlog as int,
            )),
            self.outcome(low_bound_inclusive as int, high_bound_exclusive as int, element, r),
    ;
}

/// Each drawn logarithm `xs[i]` lies in `[0, high)` and the run of the
/// solver on `xs[i] * G` returned it with the count `v[i]`.
pub open spec fn samples_from_runs<G: KangarooGroup, S: DiscreteLogSolver<G>>(
    solver: S,
    high: int,
    xs: Seq<i64>,
    v: Seq<u64>,
) -> bool {
    &&& xs.len() == v.len()
    &&& forall|i: int|
        0 <= i < xs.len() ==> 0 <= #[trigger] xs[i] < high && solver.outcome(
            0,
            high,
            signed_gen_mul::<G>(xs[i] as int),
            Some(Solution { dlog: xs[i], iters: v[i] }),
        )
}

/// The run of the solver on `x * G`, `x` in `[0, high)`, returned `rr`,
/// which is not `x`: it gave up or found another logarithm.
pub open spec fn run_missed<G: KangarooGroup, S: DiscreteLogSolver<G>>(
    solver: S,
    high: int,
    x: i64,
    rr: Option<Solution>,
) -> bool {
    &&& 0 <= x < high
    &&& solver.outcome(0, high, signed_gen_mul::<G>(x as int), rr)
    &&& match rr {
        Some(s) => s.dlog != x,
        None => true,
    }
}

/// The counts `v` are those of runs that each returned their drawn
/// logarithm.
pub open spec fn stats_counts<G: KangarooGroup, S: DiscreteLogSolver<G>>(
    solver: S,
    high: int,
    v: Seq<u64>,
) -> bool {
    exists|xs: Seq<i64>| #[trigger] samples_from_runs::<G, S>(solver, high, xs, v)
}

/// Some run on a drawn logarithm did not return it.
pub open spec fn stats_missed<G: KangarooGroup, S: DiscreteLogSolver<G>>(solver: S, high: int) -> bool {
    exists|x: i64, rr: Option<Solution>| #[trigger] run_missed::<G, S>(solver, high, x, rr)
}

/// Runs the solver on `iters` random instances `x * G`, `x` drawn from
/// `[0, 2^range_bits)`, and returns the group-operation counts of the runs.
/// `None` if a run gives up or returns another logarithm than the drawn one.
pub fn run_solver_stats<G: KangarooGroup, S: DiscreteLogSolver<G>>(
    solver: &mut S,
    range_bits: u32,
    iters: u64,
    rng: &mut Xoshiro256PlusPlus,
) -> (r: Option<Vec<u64>>)
    requires
        range_bits <= 61,
        order_ok::<G>(),
        old(solver).accepts(0, vstd::arithmetic::power2::pow2(range_bits as nat) as int),
    ensures
        r matches Some(v) ==> v@.len() == iters,
        iters == 0 ==> r is Some,
        r matches Some(v) ==> stats_counts::<G, S>(
            *old(solver),
            vstd::arithmetic::power2::pow2(range_bits as nat) as int,
            v@,
        ),
        r is None ==> stats_missed::<G, S>(
            *old(solver),
            vstd::arithmetic::power2::pow2(range_bits as nat) as int,
        ),
{
    proof {
        vstd::arithmetic::power2::lemma_pow2_strictly_increases(range_bits as nat, 62);
        vstd::arithmetic::power2::lemma_pow2_pos(range_bits as nat);
        vstd::arithmetic::power2::lemma2_to64_rest();
        if range_bits < 61 {
            vstd::arithmetic::power2::lemma_pow2_strictly_increases(range_bits as nat, 61);
        }
        vstd::bits::lemma_u64_shl_is_mul(1, range_bits as u64);
    }
    let low: i64 = 0;
    let high: i64 = (1u64 << range_bits) as i64;
    let mut samples: Vec<u64> = Vec::new();
    let mut i: u64 = 0;
    let ghost mut xs: Seq<i64> = Seq::empty();
    while i < iters
        invariant
            0 < high <= 0x2000_0000_0000_0000,
            low == 0,
            high == vstd::arithmetic::power2::pow2(range_bits as nat),
            order_ok::<G>(),
            solver.accepts(0, high as int),
            samples@.len() == i,
            i <= iters,
            samples_from_runs::<G, S>(*solver, high as int, xs, samples@),
            *solver == *old(solver),
        decreases iters - i,
    {
        let dlog = random_range_i64(rng, low, high);
        let elem = generator_scalar_mul_i64::<G>(dlog);
        let result = match solver.solve(low, high, elem, rng) {
            Some(res) => res,
            None => {
                proof {
                    assert(run_missed::<G, S>(*solver, high as int, dlog, None));
                    assert(stats_missed::<G, S>(*solver, high as int));
                }
                return None;
            },
        };
        if result.dlog != dlog {
            proof {
                assert(run_missed::<G, S>(*solver, high as int, dlog, Some(result)));
                assert(stats_missed::<G, S>(*solver, high as int));
            }
            return None;
        }
        proof {
            let ghost xs2 = xs.push(dlog);
            let ghost v2 = samples@.push(result.iters);
            assert(result == Solution { dlog: xs2[i as int], iters: v2[i as int] });
            assert forall|k: int| 0 <= k < xs2.len() implies 0 <= #[trigger] xs2[k] < high
                && solver.outcome(
                0,
                high as int,
                signed_gen_mul::<G>(xs2[k] as int),
                Some(Solution { dlog: xs2[k], iters: v2[k] }),
            ) by {
                if k < xs.len() {
                    assert(xs2[k] == xs[k] && v2[k] == samples@[k]);
                }
            }
            xs = xs2;
        }
        samples.push(result.iters);
        i = i + 1;
    }
    proof {
        assert(samples_from_runs::<G, S>(*solver, high as int, xs, samples@));
        let ghost hh = high as int;
        let ghost sv = samples@;
        let ghost so = *solver;
        assert(samples_from_runs::<G, S>(so, hh, xs, sv));
        assert(stats_counts::<G, S>(so, hh, sv));
    }
    Some(samples)
}

} // verus!
