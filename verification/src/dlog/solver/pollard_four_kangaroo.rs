//! The four-kangaroo solver in the `[l, h), Q` calling convention.
use vstd::prelude::*;

use crate::dlog::solver::{DiscreteLogSolver, Solution};
use crate::dlp::DiscreteLogSolver as IntervalSolver;
use crate::dlp::method::pollard_four_kangaroo::PollardFourKangarooSolver as FourKangaroos;
use crate::group::{signed_gen_mul, KangarooGroup};
use rand::rngs::Xoshiro256PlusPlus;

verus! {

/// Four kangaroos with `2^bucket_bits` jumps and distinguished points of
/// `dp_bits` bits.
pub struct PollardFourKangarooSolver {
    inner: FourKangaroos,
}

impl PollardFourKangarooSolver {
    /// A solver with a jump table of `2^bucket_bits` entries and
    /// distinguished points of `dp_bits` bits.
    pub fn new(bucket_bits: u32, dp_bits: u32) -> (r: Self)
        ensures
            r.bucket_bits() == bucket_bits,
            r.dp_bits() == dp_bits,
    {
        PollardFourKangarooSolver { inner: FourKangaroos::new(bucket_bits, dp_bits) }
    }

    /// The number of jump-table bits.
    pub closed spec fn bucket_bits(&self) -> u32 {
        self.inner.spec_bucket_bits()
    }

    /// The number of distinguished-point bits.
    pub closed spec fn dp_bits(&self) -> u32 {
        self.inner.spec_dp_bits()
    }

    /// The run of the walks with the jump table `table` on `element` and
    /// `[-N/2, N/2)`: its logarithm and operation count.
    pub closed spec fn table_run<G: KangarooGroup>(&self, table: Seq<(i64, G)>, element: G, n: i64) -> Option<(i64, u64)> {
        self.inner.table_run(table, element, n)
    }
}

impl<G: KangarooGroup> DiscreteLogSolver<G> for PollardFourKangarooSolver {
    open spec fn accepts(&self, low: int, high: int) -> bool {
        &&& 0 < self.bucket_bits() <= 30
        &&& 0 < self.dp_bits() < 64
        &&& high - low >= 4
    }

    /// An answer is the run with some jump table on the target shifted by
    /// the middle of `[low, high)`, shifted back.
    open spec fn outcome(&self, low: int, high: int, element: G, r: Option<Solution>) -> bool {
        r matches Some(s) ==> exists|table: Seq<(i64, G)>| #[trigger]
            self.table_run(
                table,
                element.spec_add(signed_gen_mul::<G>(low + (high - low) / 2).spec_neg()),
                (high - low) as i64,
            ) == Some(((s.dlog - (low + (high - low) / 2)) as i64, s.iters))
    }

    fn solve(
        &self,
        low_bound_inclusive: i64,
        high_bound_exclusive: i64,
        element: G,
        rng: &mut Xoshiro256PlusPlus,
    ) -> (r: Option<Solution>)
        ensures
            r matches Some(s) ==> exists|table: Seq<(i64, G)>| #[trigger]
                self.table_run(
                    table,
                    element.spec_add(
                        signed_gen_mul::<G>(
                            low_bound_inclusive + (high_bound_exclusive - low_bound_inclusive) / 2,
                        ).spec_neg(),
                    ),
                    (high_bound_exclusive - low_bound_inclusive) as i64,
                ) == Some(
                    (
                        (s.dlog - (low_bound_inclusive + (high_bound_exclusive - low_bound_inclusive)
                            / 2)) as i64,
                        s.iters,
                    ),
                ),
    {
        let solution = self.inner.solve(element, low_bound_inclusive, high_bound_exclusive, rng)?;
        let res = Solution { dlog: solution.discrete_log(), iters: solution.group_ops() };
        proof {
            let l = low_bound_inclusive as int;
            let h = high_bound_exclusive as int;
            let shifted = element.spec_add(signed_gen_mul::<G>(l + (h - l) / 2).spec_neg());
            let v = Some(((res.dlog - (l + (h - l) / 2)) as i64, res.iters));
            let table = choose|table: Seq<(i64, G)>| #[trigger]
                self.inner.table_run(table, shifted, (h - l) as i64) == v;
            assert(self.table_run(table, shifted, (h - l) as i64) == v);
        }
        Some(res)
    }
}

} // verus!
