//! An idealised Gaudry-Schost simulation with the negation map: tame points
//! drawn from `[-gamma N/2, gamma N/2)`, wild points `Q + d G` with even `d`
//! drawn from `[-N/2, N/2)`, all stored, until a tame-wild or a useful
//! wild-wild collision.
use std::collections::HashMap;
use vstd::prelude::*;

use crate::dlp::order_ok;
use crate::group::{abs_int, signed_gen_mul, unsigned_abs, KangarooGroup};
use crate::rng::random_range_i64;
use rand::rngs::Xoshiro256PlusPlus;

verus! {

broadcast use vstd::std_specs::hash::group_hash_axioms;

/// The default number of simulated instances.
pub const DEFAULT_GS_COUNT: u64 = 4096;

/// The default interval size, in bits.
pub const DEFAULT_GS_RANGE_BITS: u32 = 50;

/// The simulator, with the tame set's relative width
/// `gamma = gamma_num / gamma_den`.
#[derive(Debug, Clone, Copy)]
pub struct GaudrySchostSimulator {
    gamma_num: u64,
    gamma_den: u64,
}

/// `scalar * G`, negated for a negative scalar.
fn mul_by_generator<G: KangarooGroup>(scalar: i64) -> (r: G)
    requires
        abs_int(scalar as int) < G::spec_order(),
    ensures
        r == signed_gen_mul::<G>(scalar as int),
{
    let scalar_abs = unsigned_abs(scalar);
    if scalar < 0 {
        G::mul_by_generator_u64(scalar_abs).group_neg()
    } else {
        G::mul_by_generator_u64(scalar_abs)
    }
}

/// The representative of the class of `p` and the distance that goes with
/// it: `(p, d)`, or `(-p, -d)` when `p` does not represent its class.
pub open spec fn sim_class<G: KangarooGroup>(p: G, d: int) -> (G, int) {
    if p.spec_is_negation_map_representative() {
        (p, d)
    } else {
        (p.spec_neg(), -d)
    }
}

/// `x` rounded toward zero to an even number.
pub open spec fn sim_even(x: int) -> int {
    if x >= 0 {
        x / 2 * 2
    } else {
        -((-x) / 2 * 2)
    }
}

/// The simulation state between two samples: the distances stored under
/// each class's key for tame and wild points, the operation count and
/// which sample is next (`0` tame, `1` and `2` wild).
pub struct SimState {
    pub tames: Map<u128, i64>,
    pub wilds: Map<u128, i64>,
    pub iters: u64,
    pub turn: u8,
}

/// The outcome of one sample: the run ends with a count, or goes on.
pub enum SimMove {
    Done(Option<u64>),
    Next(SimState),
}

/// One sample with the draw `j` for the instance `h`: the tame point `j G`
/// or the wild point `h + w G`, `w` the even number toward zero from `j`,
/// replaced by its class representative (one group operation); a tame
/// point that meets a wild one, or a wild point that meets a tame one or a
/// wild one at another distance, ends the run with the count. The run
/// gives up before a tame sample when the counter is within `3` of
/// `u64::MAX`.
pub open spec fn sim_move<G: KangarooGroup>(h: G, s: SimState, j: i64) -> SimMove {
    let iters = (s.iters + 1) as u64;
    if s.turn == 0 {
        let (p, d) = sim_class(signed_gen_mul::<G>(j as int), j as int);
        let k = p.spec_key();
        if s.iters > u64::MAX - 3 {
            SimMove::Done(None)
        } else if s.wilds.contains_key(k) {
            SimMove::Done(Some(iters))
        } else {
            SimMove::Next(SimState { tames: s.tames.insert(k, d as i64), iters, turn: 1, ..s })
        }
    } else {
        let w = sim_even(j as int);
        let (p, d) = sim_class(h.spec_add(signed_gen_mul::<G>(w)), w);
        let k = p.spec_key();
        if s.tames.contains_key(k) || (s.wilds.contains_key(k) && d != s.wilds[k]) {
            SimMove::Done(Some(iters))
        } else {
            SimMove::Next(
                SimState { wilds: s.wilds.insert(k, d as i64), iters, turn: if s.turn == 1 { 2 } else { 0 }, ..s },
            )
        }
    }
}

/// The state after the first `k` samples `draws`, while none ended the run.
pub open spec fn sim_after<G: KangarooGroup>(h: G, draws: Seq<i64>, k: nat) -> Option<SimState>
    decreases k,
{
    if k == 0 {
        Some(SimState { tames: Map::empty(), wilds: Map::empty(), iters: 0, turn: 0 })
    } else {
        match sim_after(h, draws, (k - 1) as nat) {
            Some(s) => match sim_move(h, s, draws[k - 1]) {
                SimMove::Next(s2) => Some(s2),
                SimMove::Done(_) => None,
            },
            None => None,
        }
    }
}

/// The draws lie in their ranges: tame draws (every third, from the first)
/// in `[-tb, tb)`, wild draws in `[-hn, hn)`.
pub open spec fn sim_draws_ok(draws: Seq<i64>, tb: int, hn: int) -> bool {
    forall|i: int|
        0 <= i < draws.len() ==> if i % 3 == 0 {
            -tb <= #[trigger] draws[i] < tb
        } else {
            -hn <= draws[i] < hn
        }
}

/// The simulation of the instance `h` with some draws in their ranges ends
/// at the last of them with `v`.
pub open spec fn sim_run_gives<G: KangarooGroup>(h: G, tb: int, hn: int, v: Option<u64>) -> bool {
    exists|draws: Seq<i64>|
        #![trigger sim_after(h, draws, (draws.len() - 1) as nat)]
        draws.len() >= 1 && sim_draws_ok(draws, tb, hn) && (sim_after(
            h,
            draws,
            (draws.len() - 1) as nat,
        ) matches Some(s) && sim_move(h, s, draws.last()) == SimMove::Done(v))
}

/// After `k` samples that all went on, `k` operations are counted, one per
/// sample, tame or wild; the counter stays below its limit.
pub proof fn lemma_sim_after_count<G: KangarooGroup>(h: G, draws: Seq<i64>, k: nat)
    ensures
        sim_after(h, draws, k) matches Some(s) ==> s.iters == k && (s.turn == 0 || (s.turn == 1
            && s.iters <= u64::MAX - 2) || (s.turn == 2 && s.iters <= u64::MAX - 1)),
    decreases k,
{
    if k > 0 {
        lemma_sim_after_count(h, draws, (k - 1) as nat);
    }
}

/// The simulation of `h` ends with the count `iters` after exactly `iters`
/// draws in their ranges.
pub open spec fn sim_counted_run<G: KangarooGroup>(h: G, tb: int, hn: int, iters: u64) -> bool {
    exists|draws: Seq<i64>|
        #![trigger sim_after(h, draws, (draws.len() - 1) as nat)]
        draws.len() >= 1 && sim_draws_ok(draws, tb, hn) && (sim_after(
            h,
            draws,
            (draws.len() - 1) as nat,
        ) matches Some(s) && sim_move(h, s, draws.last()) == SimMove::Done(Some(iters)))
            && iters == draws.len()
}

/// Every sampled point counts one group operation, tame and wild alike:
/// the count a simulation ends with is the number of points it sampled.
pub proof fn lemma_sim_run_count<G: KangarooGroup>(h: G, tb: int, hn: int, iters: u64)
    requires
        sim_run_gives(h, tb, hn, Some(iters)),
    ensures
        sim_counted_run(h, tb, hn, iters),
{
    let draws = choose|draws: Seq<i64>|
        #![trigger sim_after(h, draws, (draws.len() - 1) as nat)]
        draws.len() >= 1 && sim_draws_ok(draws, tb, hn) && (sim_after(
            h,
            draws,
            (draws.len() - 1) as nat,
        ) matches Some(s) && sim_move(h, s, draws.last()) == SimMove::Done(Some(iters)));
    lemma_sim_after_count(h, draws, (draws.len() - 1) as nat);
    assert(iters == draws.len());
}

/// Half the interval width `2^range_bits`.
pub open spec fn sim_half(range_bits: u32) -> int {
    vstd::arithmetic::power2::pow2(range_bits as nat) as int / 2
}

/// `ceil(hn * num / den)`: the tame bound for the ratio `gamma = num / den`.
pub open spec fn sim_tame_ceil(hn: int, num: int, den: int) -> int {
    (hn * num + den - 1) / den
}

/// `tb = ceil(hn * num / den)`.
pub open spec fn sim_tame_bound_ok(tb: int, hn: int, num: int, den: int) -> bool {
    1 <= tb && tb * den >= hn * num && (tb - 1) * den < hn * num
}

/// Some instance `dlog G`, `dlog` in `[-hn, hn)`, simulated with the tame
/// bound `tb = ceil(hn * num / den)` and draws in their ranges, ends with `r`.
pub open spec fn sim_outcome<G: KangarooGroup>(hn: int, num: int, den: int, r: Option<u64>) -> bool {
    exists|dlog: int, tb: int|
        #![trigger sim_run_gives(signed_gen_mul::<G>(dlog), tb, hn, r)]
        -hn <= dlog < hn && sim_tame_bound_ok(tb, hn, num, den) && sim_run_gives(
            signed_gen_mul::<G>(dlog),
            tb,
            hn,
            r,
        )
}

/// A simulated instance gives `sim_outcome`.
proof fn lemma_sim_outcome<G: KangarooGroup>(dlog: int, tb: int, hn: int, num: int, den: int, r: Option<u64>)
    requires
        -hn <= dlog < hn,
        sim_tame_bound_ok(tb, hn, num, den),
        sim_run_gives(signed_gen_mul::<G>(dlog), tb, hn, r),
    ensures
        sim_outcome::<G>(hn, num, den, r),
{
}

/// A draw in its range extends draws in their ranges.
pub proof fn lemma_sim_draws_push(d: Seq<i64>, j: i64, tb: int, hn: int)
    requires
        sim_draws_ok(d, tb, hn),
        d.len() % 3 == 0 ==> -tb <= j < tb,
        d.len() % 3 != 0 ==> -hn <= j < hn,
    ensures
        sim_draws_ok(d.push(j), tb, hn),
{
    assert forall|i: int| 0 <= i < d.push(j).len() implies if i % 3 == 0 {
        -tb <= #[trigger] d.push(j)[i] < tb
    } else {
        -hn <= d.push(j)[i] < hn
    } by {
        if i < d.len() {
            assert(d.push(j)[i] == d[i]);
        }
    }
}

/// The run after `k` samples depends only on the first `k` draws.
pub proof fn lemma_sim_after_prefix<G: KangarooGroup>(h: G, d: Seq<i64>, j: i64, k: nat)
    requires
        k <= d.len(),
    ensures
        sim_after(h, d.push(j), k) == sim_after(h, d, k),
    decreases k,
{
    if k > 0 {
        lemma_sim_after_prefix(h, d, j, (k - 1) as nat);
        assert(d.push(j)[k - 1] == d[k - 1]);
    }
}

/// A sample that ends the run at the next draw `j` gives its result.
pub proof fn lemma_sim_witness<G: KangarooGroup>(
    h: G,
    tb: int,
    hn: int,
    drawn: Seq<i64>,
    j: i64,
    cur: SimState,
    v: Option<u64>,
)
    requires
        sim_after(h, drawn, drawn.len()) == Some(cur),
        sim_move(h, cur, j) == SimMove::Done(v),
        sim_draws_ok(drawn.push(j), tb, hn),
    ensures
        sim_run_gives(h, tb, hn, v),
{
    lemma_sim_after_prefix(h, drawn, j, drawn.len());
    let d = drawn.push(j);
    assert(d.last() == j);
    assert((d.len() - 1) as nat == drawn.len());
    assert(sim_after(h, d, (d.len() - 1) as nat) == Some(cur));
}

/// A sample that goes on at the next draw `j` gives the state after it.
pub proof fn lemma_sim_next<G: KangarooGroup>(h: G, drawn: Seq<i64>, j: i64, cur: SimState, next: SimState)
    requires
        sim_after(h, drawn, drawn.len()) == Some(cur),
        sim_move(h, cur, j) == SimMove::Next(next),
    ensures
        sim_after(h, drawn.push(j), drawn.push(j).len()) == Some(next),
{
    lemma_sim_after_prefix(h, drawn, j, drawn.len());
    assert(drawn.push(j)[drawn.len() as int] == j);
}

impl GaudrySchostSimulator {
    /// A simulator with `gamma = gamma_num / gamma_den > 0`.
    pub fn new(gamma_num: u64, gamma_den: u64) -> (r: Self)
        requires
            0 < gamma_num,
            0 < gamma_den,
        ensures
            r.gamma() == (gamma_num, gamma_den),
    {
        GaudrySchostSimulator { gamma_num, gamma_den }
    }

    /// The tame width `gamma` as a fraction.
    pub closed spec fn gamma(&self) -> (u64, u64) {
        (self.gamma_num, self.gamma_den)
    }

    /// `ceil(half_n * gamma)`, which must lie below `bound`.
    fn tame_bound(&self, half_n: i64) -> (r: i64)
        requires
            0 < self.gamma_num,
            0 < self.gamma_den,
            1 <= half_n <= 0x2000_0000_0000_0000,
            sim_tame_ceil(half_n as int, self.gamma_num as int, self.gamma_den as int)
                <= 0x7fff_ffff_ffff_ffff,
        ensures
            r == sim_tame_ceil(half_n as int, self.gamma_num as int, self.gamma_den as int),
            sim_tame_bound_ok(r as int, half_n as int, self.gamma_num as int, self.gamma_den as int),
    {
        proof {
            vstd::arithmetic::mul::lemma_mul_upper_bound(half_n as int, 0x2000_0000_0000_0000,
                self.gamma_num as int, 0xffff_ffff_ffff_ffff);
        }
        let num = half_n as u128 * self.gamma_num as u128;
        let den = self.gamma_den as u128;
        let r = (num + den - 1) / den;
        assert(1 <= r && r * den >= num && (r - 1) * den < num) by (nonlinear_arith)
            requires
                r == (num + den - 1) / (den as int),
                num == half_n * self.gamma_num,
                den == self.gamma_den,
                0 < self.gamma_num,
                0 < self.gamma_den,
                half_n >= 1,
        ;
        r as i64
    }

    #[verifier::rlimit(100)]
    #[verifier::spinoff_prover]
    pub fn simulate<G: KangarooGroup>(&self, range_bits: u32, rng: &mut Xoshiro256PlusPlus) -> (r:
        Option<u64>)
        requires
            1 < range_bits <= 62,
            0 < self.gamma().0,
            0 < self.gamma().1,
            sim_tame_ceil(sim_half(range_bits), self.gamma().0 as int, self.gamma().1 as int)
                < G::spec_order(),
            sim_tame_ceil(sim_half(range_bits), self.gamma().0 as int, self.gamma().1 as int)
                <= i64::MAX,
            order_ok::<G>(),
        ensures
            r matches Some(iters) ==> iters >= 2,
            sim_outcome::<G>(sim_half(range_bits), self.gamma().0 as int, self.gamma().1 as int, r),
    {
        proof {
            vstd::arithmetic::power2::lemma_pow2_strictly_increases(range_bits as nat, 63);
            vstd::arithmetic::power2::lemma_pow2_pos(range_bits as nat);
            vstd::arithmetic::power2::lemma2_to64_rest();
            vstd::arithmetic::power2::lemma2_to64();
            if range_bits > 2 {
                vstd::arithmetic::power2::lemma_pow2_strictly_increases(2, range_bits as nat);
            }
            if range_bits < 62 {
                vstd::arithmetic::power2::lemma_pow2_strictly_increases(range_bits as nat, 62);
            }
            vstd::bits::lemma_u64_shl_is_mul(1, range_bits as u64);
        }
        let n: i64 = (1u64 << range_bits) as i64;
        let half_n = n / 2;
        let dlog = random_range_i64(rng, -half_n, half_n);
        let h = mul_by_generator::<G>(dlog);

        let wild_bound = half_n;
        assert(half_n == sim_half(range_bits));
        let tame_bound = self.tame_bound(half_n);

        let mut tames: HashMap<u128, i64> = HashMap::new();
        let mut wilds: HashMap<u128, i64> = HashMap::new();
        let mut iters: u64 = 0;
        let ghost hn = sim_half(range_bits);
        let ghost mut drawn: Seq<i64> = Seq::empty();
        assert(half_n == hn);
        assert(sim_after(h, drawn, 0) == Some((SimState { tames: tames@, wilds: wilds@, iters, turn: 0 })));

        loop
            invariant
                1 <= tame_bound < G::spec_order(),
                half_n <= 0x2000_0000_0000_0000,
                wild_bound == half_n,
                order_ok::<G>(),
                iters == 0 ==> wilds@ == Map::<u128, i64>::empty(),
                iters % 3 == 0,
                drawn.len() == iters,
                hn == half_n,
                hn == sim_half(range_bits),
                h == signed_gen_mul::<G>(dlog as int),
                -hn <= dlog < hn,
                sim_tame_bound_ok(tame_bound as int, hn, self.gamma().0 as int, self.gamma().1 as int),
                sim_draws_ok(drawn, tame_bound as int, hn),
                sim_after(h, drawn, drawn.len()) == Some((SimState { tames: tames@, wilds: wilds@, iters, turn: 0 })),
            decreases u64::MAX - iters,
        {
            let ghost sa = SimState { tames: tames@, wilds: wilds@, iters, turn: 0 };
            if iters > u64::MAX - 3 {
                proof {
                    lemma_sim_draws_push(drawn, 0, tame_bound as int, hn);
                    lemma_sim_witness(h, tame_bound as int, hn, drawn, 0, sa, None);
                    lemma_sim_outcome::<G>(dlog as int, tame_bound as int, hn, self.gamma().0 as int, self.gamma().1 as int, None);
                }
                return None;
            }
            let t_distance = random_range_i64(rng, -tame_bound, tame_bound);
            let ghost j0 = t_distance;
            proof {
                lemma_sim_draws_push(drawn, j0, tame_bound as int, hn);
            }
            let t = mul_by_generator::<G>(t_distance);
            iters = iters + 1;
            let (t, t_distance) = if t.is_negation_map_representative() {
                (t, t_distance)
            } else {
                (t.group_neg(), -t_distance)
            };
            if wilds.get(&t.key()).is_some() {
                proof {
                    lemma_sim_witness(h, tame_bound as int, hn, drawn, j0, sa, Some(iters));
                    lemma_sim_outcome::<G>(dlog as int, tame_bound as int, hn, self.gamma().0 as int, self.gamma().1 as int, Some(iters));
                }
                return Some(iters);
            }
            tames.insert(t.key(), t_distance);
            proof {
                lemma_sim_next(h, drawn, j0, sa, SimState { tames: tames@, wilds: wilds@, iters, turn: 1 });
                drawn = drawn.push(j0);
            }

            let ghost sb = SimState { tames: tames@, wilds: wilds@, iters, turn: 1 };
            let raw1 = random_range_i64(rng, -wild_bound, wild_bound);
            proof {
                lemma_sim_draws_push(drawn, raw1, tame_bound as int, hn);
            }
            let w_distance = raw1 / 2 * 2;
            let w = h.group_add(&mul_by_generator::<G>(w_distance));
            iters = iters + 1;
            let (w, w_distance) = if w.is_negation_map_representative() {
                (w, w_distance)
            } else {
                (w.group_neg(), -w_distance)
            };
            if tames.get(&w.key()).is_some() {
                proof {
                    lemma_sim_witness(h, tame_bound as int, hn, drawn, raw1, sb, Some(iters));
                    lemma_sim_outcome::<G>(dlog as int, tame_bound as int, hn, self.gamma().0 as int, self.gamma().1 as int, Some(iters));
                }
                return Some(iters);
            }
            match wilds.get(&w.key()) {
                Some(w2_distance) => {
                    if w_distance != *w2_distance {
                        proof {
                            lemma_sim_witness(h, tame_bound as int, hn, drawn, raw1, sb, Some(iters));
                    lemma_sim_outcome::<G>(dlog as int, tame_bound as int, hn, self.gamma().0 as int, self.gamma().1 as int, Some(iters));
                        }
                        return Some(iters);
                    }
                },
                None => {},
            }
            wilds.insert(w.key(), w_distance);
            proof {
                lemma_sim_next(h, drawn, raw1, sb, SimState { tames: tames@, wilds: wilds@, iters, turn: 2 });
                drawn = drawn.push(raw1);
            }

            let ghost sc = SimState { tames: tames@, wilds: wilds@, iters, turn: 2 };
            let raw2 = random_range_i64(rng, -wild_bound, wild_bound);
            proof {
                lemma_sim_draws_push(drawn, raw2, tame_bound as int, hn);
            }
            let w_distance = raw2 / 2 * 2;
            let w = h.group_add(&mul_by_generator::<G>(w_distance));
            iters = iters + 1;
            let (w, w_distance) = if w.is_negation_map_representative() {
                (w, w_distance)
            } else {
                (w.group_neg(), -w_distance)
            };
            if tames.get(&w.key()).is_some() {
                proof {
                    lemma_sim_witness(h, tame_bound as int, hn, drawn, raw2, sc, Some(iters));
                    lemma_sim_outcome::<G>(dlog as int, tame_bound as int, hn, self.gamma().0 as int, self.gamma().1 as int, Some(iters));
                }
                return Some(iters);
            }
            match wilds.get(&w.key()) {
                Some(w2_distance) => {
                    if w_distance != *w2_distance {
                        proof {
                            lemma_sim_witness(h, tame_bound as int, hn, drawn, raw2, sc, Some(iters));
                    lemma_sim_outcome::<G>(dlog as int, tame_bound as int, hn, self.gamma().0 as int, self.gamma().1 as int, Some(iters));
                        }
                        return Some(iters);
                    }
                },
                None => {},
            }
            wilds.insert(w.key(), w_distance);
            proof {
                lemma_sim_next(h, drawn, raw2, sc, SimState { tames: tames@, wilds: wilds@, iters, turn: 0 });
                drawn = drawn.push(raw2);
            }
        }
    }
}

} // verus!
