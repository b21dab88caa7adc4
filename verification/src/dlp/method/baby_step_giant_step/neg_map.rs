//! Baby-step giant-step on the classes `{P, -P}`: baby steps only up to
//! `m / 2`, each giant step compared up to sign.
use std::collections::HashMap;
use vstd::prelude::*;

use crate::dlp::{
    has_log_in, is_log_in, keys_at, lemma_exact, lemma_has_log_shift, lemma_is_log_unshift,
    lemma_keys_at_insert, lemma_neg_congruence, lemma_same_key, lemma_shift,
    lemma_solves_from_witness, lemma_unshift, order_ok, solves, some_dlog, DiscreteLogSolver,
    Solution,
};
use crate::group::{generator_scalar_mul_i64, group_laws, negation_map_law, KangarooGroup};
use crate::num::{is_round_sqrt, lemma_round_sqrt_unique, round_sqrt, round_sqrt_ratio};
use rand::rngs::Xoshiro256PlusPlus;

verus! {

broadcast use vstd::std_specs::hash::group_hash_axioms;

/// Baby-step giant-step with the negation map, `m = round(sqrt(N))`.
#[derive(Default)]
pub struct NegMap;

/// The key of the representative of the class `{t G, -t G}`.
pub open spec fn class_key<G: KangarooGroup>(t: int) -> u128 {
    if G::spec_gen_mul(t).spec_is_negation_map_representative() {
        G::spec_gen_mul(t).spec_key()
    } else {
        G::spec_gen_mul(-t).spec_key()
    }
}

/// The giant steps a negation-map search over `m = round(sqrt(N))` takes
/// to reach `x`: the least `j >= 0` with `|x - j m| <= (m + 1) / 2`.
pub open spec fn neg_map_giant_steps(x: int, n: int, j: int) -> bool {
    let m = round_sqrt(n);
    let half = (m + 1) / 2;
    &&& 0 <= j
    &&& -half <= x - j * m <= half
    &&& j == 0 || x - (j - 1) * m > half
}

/// `t G` and `-t G` have the same representative.
pub proof fn lemma_class_key_symmetric<G: KangarooGroup>(t: int)
    requires
        negation_map_law::<G>(),
    ensures
        class_key::<G>(t) == class_key::<G>(-t),
{
    assert(-(-t) == t);
    if G::spec_gen_mul(t) != G::spec_gen_mul(-t) {
        assert(G::spec_gen_mul(t).spec_is_negation_map_representative() != G::spec_gen_mul(
            -t,
        ).spec_is_negation_map_representative());
    }
}

impl NegMap {
    /// The search over `[0, N)` on classes: it finds the logarithm whenever
    /// it lies in `[0, N)` (and the negation map picks one of `P` and `-P`),
    /// after the least number of giant steps that comes within `(m + 1) / 2`.
    fn solve_zero_based<G: KangarooGroup>(&self, element: G, n: i64) -> (r: Option<Solution>)
        requires
            1 <= n <= 0x2000_0000_0000_0000,
            order_ok::<G>(),
        ensures
            r matches Some(s) ==> solves(element, s.spec_discrete_log() as int),
            has_log_in(element, 0, n as int) && negation_map_law::<G>() ==> (r matches Some(s)
                && is_log_in(element, 0, n as int, s.spec_discrete_log() as int)
                && neg_map_giant_steps(
                s.spec_discrete_log() as int,
                n as int,
                s.spec_group_ops() - (round_sqrt(n as int) + 1) / 2 - 1,
            )),
    {
        let ghost x0 = some_dlog(element);
        let ghost ok = group_laws::<G>() && G::spec_gen_mul(x0) == element;
        let ghost found = has_log_in(element, 0, n as int) && negation_map_law::<G>();
        let ghost xi = choose|x: int| 0 <= x < n && #[trigger] G::spec_gen_mul(x) == element;
        let m64 = round_sqrt_ratio(n as u128, 1);
        assert(m64 >= 1 && m64 <= 0x8000_0000) by (nonlinear_arith)
            requires
                m64 > 0 ==> (2 * m64 - 1) * (2 * m64 - 1) * 1 <= 4 * n,
                4 * n < (2 * m64 + 1) * (2 * m64 + 1) * 1,
                1 <= n <= 0x2000_0000_0000_0000,
        ;
        let m = m64 as i64;
        proof {
            assert(is_round_sqrt(m as int, n as int));
            lemma_round_sqrt_unique(m as int, n as int);
        }
        let mut group_ops: u64 = 0;
        let mut babies: HashMap<u128, i64> = HashMap::new();
        let half = (m + 1) / 2;
        for i in 0..half + 1
            invariant
                1 <= m <= 0x8000_0000,
                half == (m + 1) / 2,
                order_ok::<G>(),
                group_ops == i,
                group_laws::<G>() ==> keys_at::<G>(babies@, 0),
                forall|k: u128| #[trigger]
                    babies@.contains_key(k) ==> -half <= babies@[k] <= half,
                group_laws::<G>() ==> forall|j: int|
                    0 <= j < i ==> babies@.contains_key(#[trigger] class_key::<G>(j)),
        {
            let mut baby_distance = i;
            let mut baby = generator_scalar_mul_i64::<G>(baby_distance);
            if !baby.is_negation_map_representative() {
                proof {
                    if group_laws::<G>() {
                        assert(G::spec_gen_mul(i as int).spec_neg() == G::spec_gen_mul(-i));
                    }
                }
                baby_distance = -baby_distance;
                baby = baby.group_neg();
            }
            proof {
                if group_laws::<G>() {
                    lemma_keys_at_insert::<G>(babies@, 0, baby_distance);
                    assert(0 + baby_distance == baby_distance);
                }
            }
            proof {
                if group_laws::<G>() {
                    assert(baby.spec_key() == class_key::<G>(i as int));
                }
            }
            babies.insert(baby.key(), baby_distance);
            group_ops = group_ops + 1;
        }
        let giant_step = generator_scalar_mul_i64::<G>(m).group_neg();
        let mut giant_distance: i64 = 0;
        let mut giant = element;
        let ghost mut steps: int = 0;
        loop
            invariant
                1 <= m <= 0x8000_0000,
                half == (m + 1) / 2,
                m == round_sqrt(n as int),
                steps >= 0,
                giant_distance == steps * m,
                steps <= giant_distance,
                group_ops == half + 1 + steps,
                found ==> steps == 0 || xi - (steps - 1) * m > half,
                ok == (group_laws::<G>() && G::spec_gen_mul(x0) == element),
                x0 == some_dlog(element),
                0 <= giant_distance,
                ok ==> giant == G::spec_gen_mul(x0 - giant_distance),
                ok ==> giant_step == G::spec_gen_mul(-m),
                group_laws::<G>() ==> keys_at::<G>(babies@, 0),
                forall|k: u128| #[trigger]
                    babies@.contains_key(k) ==> -half <= babies@[k] <= half,
                group_laws::<G>() ==> forall|j: int|
                    0 <= j <= half ==> babies@.contains_key(#[trigger] class_key::<G>(j)),
                found == (has_log_in(element, 0, n as int) && negation_map_law::<G>()),
                found ==> 0 <= xi < n && G::spec_gen_mul(xi) == element,
                found ==> giant == G::spec_gen_mul(xi - giant_distance) && giant_distance <= xi
                    + half,
                1 <= n <= 0x2000_0000_0000_0000,
                order_ok::<G>(),
            decreases i64::MAX - giant_distance,
        {
            if giant_distance > i64::MAX - m {
                return None;
            }
            let mut g = giant;
            let mut giant_sign: i64 = 1;
            if !g.is_negation_map_representative() {
                giant_sign = -1;
                g = g.group_neg();
                proof {
                    if ok {
                        assert(G::spec_gen_mul(x0 - giant_distance).spec_neg() == G::spec_gen_mul(
                            -(x0 - giant_distance),
                        ));
                    }
                }
            }
            let key = g.key();
            proof {
                if found {
                    assert(G::spec_gen_mul(xi - giant_distance).spec_neg() == G::spec_gen_mul(
                        -(xi - giant_distance),
                    ));
                    assert(key == class_key::<G>(xi - giant_distance));
                }
            }
            match babies.get(&key) {
                Some(baby_distance) => {
                    let discrete_log = giant_distance + giant_sign * *baby_distance;
                    proof {
                        if ok {
                            let q = G::spec_order();
                            let bd = *baby_distance as int;
                            if giant_sign == 1 {
                                lemma_same_key::<G>(0 + bd, x0 - giant_distance);
                                lemma_unshift(bd, x0, giant_distance as int, q);
                            } else {
                                lemma_same_key::<G>(0 + bd, -(x0 - giant_distance));
                                lemma_neg_congruence(bd, -(x0 - giant_distance), q);
                                assert(-(-(x0 - giant_distance)) == x0 - giant_distance);
                                lemma_unshift(-bd, x0, giant_distance as int, q);
                                assert(giant_sign * bd == -bd);
                            }
                        }
                        lemma_solves_from_witness(element, discrete_log as int);
                        if found {
                            let q = G::spec_order();
                            let bd = *baby_distance as int;
                            let t = xi - giant_distance;
                            if giant_sign == 1 {
                                lemma_same_key::<G>(0 + bd, t);
                                lemma_unshift(bd, xi, giant_distance as int, q);
                            } else {
                                lemma_same_key::<G>(0 + bd, -t);
                                lemma_neg_congruence(bd, -t, q);
                                assert(-(-t) == t);
                                lemma_unshift(-bd, xi, giant_distance as int, q);
                                assert(giant_sign * bd == -bd);
                            }
                            lemma_exact(discrete_log as int, xi, q);
                        }
                    }
                    return Some(Solution::new(discrete_log, group_ops));
                },
                None => {},
            }
            proof {
                if ok {
                    assert(G::spec_gen_mul(x0 - giant_distance).spec_add(G::spec_gen_mul(-m))
                        == G::spec_gen_mul(x0 - giant_distance + -m));
                }
                if found {
                    let t = xi - giant_distance;
                    assert(G::spec_gen_mul(x0) == G::spec_gen_mul(xi));
                    if -half <= t <= half {
                        if t >= 0 {
                            assert(babies@.contains_key(class_key::<G>(t)));
                        } else {
                            lemma_class_key_symmetric::<G>(t);
                            assert(babies@.contains_key(class_key::<G>(-t)));
                        }
                    }
                    assert(t > half);
                    assert(G::spec_gen_mul(xi - giant_distance).spec_add(G::spec_gen_mul(-m))
                        == G::spec_gen_mul(xi - giant_distance + -m));
                }
            }
            proof {
                assert((steps + 1) * m == steps * m + m) by (nonlinear_arith);
                steps = steps + 1;
            }
            giant_distance = giant_distance + m;
            giant = giant.group_add(&giant_step);
            group_ops = group_ops + 1;
        }
    }
}

impl DiscreteLogSolver for NegMap {
    open spec fn accepts(&self, l: int, h: int) -> bool {
        true
    }

    fn solve<G: KangarooGroup>(
        &self,
        element: G,
        l: i64,
        h: i64,
        rng: &mut Xoshiro256PlusPlus,
    ) -> (r: Option<Solution>)
        ensures
            has_log_in(element, l as int, h as int) && negation_map_law::<G>() ==> (r matches Some(
                s,
            ) && is_log_in(element, l as int, h as int, s.spec_discrete_log() as int)
                && neg_map_giant_steps(
                s.spec_discrete_log() - l,
                h - l,
                s.spec_group_ops() - (round_sqrt(h - l) + 1) / 2 - 1,
            )),
    {
        let n = h - l;
        let shift = l;
        let shifted = element.group_sub(&generator_scalar_mul_i64::<G>(shift));
        proof {
            if has_log_in(element, l as int, h as int) {
                lemma_has_log_shift(element, l as int, h as int, shift as int);
                assert(l - shift == 0 && h - shift == n);
            }
        }
        let solution = self.solve_zero_based(shifted, n)?;
        let discrete_log = solution.discrete_log().checked_add(shift)?;
        proof {
            assert forall|x: int|
                #![trigger G::spec_gen_mul(x)]
                group_laws::<G>() && G::spec_gen_mul(x) == element && l <= x < h implies (
                discrete_log as int) % G::spec_order() == x % G::spec_order() by {
                lemma_shift::<G>(x, shift as int);
                lemma_unshift(solution.spec_discrete_log() as int, x, shift as int,
                    G::spec_order());
            }
            if has_log_in(element, l as int, h as int) && negation_map_law::<G>() {
                assert(l - shift == 0 && h - shift == n);
                lemma_is_log_unshift(element, l as int, h as int, shift as int,
                    solution.spec_discrete_log() as int);
            }
        }
        Some(Solution::new(discrete_log, solution.group_ops()))
    }
}

} // verus!
