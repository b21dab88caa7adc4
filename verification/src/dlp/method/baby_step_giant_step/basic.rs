//! Textbook baby-step giant-step with `m = round(sqrt(N))`.
use std::collections::HashMap;
use vstd::prelude::*;

use crate::dlp::{
    has_log_in, is_log_in, keys_at, lemma_exact, lemma_has_log_shift,
    lemma_is_log_unshift, lemma_keys_at_insert, lemma_same_key, lemma_shift,
    lemma_solves_from_witness, lemma_unshift, order_ok, solves, some_dlog, DiscreteLogSolver, Solution,
};
use crate::group::{generator_scalar_mul_i64, group_laws, KangarooGroup};
use crate::num::{is_round_sqrt, lemma_round_sqrt_unique, round_sqrt, round_sqrt_ratio};
use rand::rngs::Xoshiro256PlusPlus;

verus! {

broadcast use vstd::std_specs::hash::group_hash_axioms;

/// Baby-step giant-step over `[0, N)` with `m = round(sqrt(N))` baby steps.
#[derive(Default)]
pub struct Basic;

impl Basic {
    /// The search over `[0, N)`: `m` baby steps, then giant steps of `m`
    /// until one lands in the table. It finds the logarithm whenever it lies
    /// in `[0, N)`, after `m + floor(x / m)` group operations.
    fn solve_zero_based<G: KangarooGroup>(&self, element: G, n: i64) -> (r: Option<Solution>)
        requires
            1 <= n <= 0x2000_0000_0000_0000,
            order_ok::<G>(),
        ensures
            r matches Some(s) ==> solves(element, s.spec_discrete_log() as int),
            has_log_in(element, 0, n as int) ==> (r matches Some(s) && is_log_in(
                element,
                0,
                n as int,
                s.spec_discrete_log() as int,
            ) && s.spec_group_ops() == round_sqrt(n as int) + (s.spec_discrete_log() as int)
                / round_sqrt(n as int)),
    {
        let ghost x0 = some_dlog(element);
        let ghost ok = group_laws::<G>() && G::spec_gen_mul(x0) == element;
        let ghost found = has_log_in(element, 0, n as int);
        let ghost xi = choose|x: int| 0 <= x < n && #[trigger] G::spec_gen_mul(x) == element;
        let m64 = round_sqrt_ratio(n as u128, 1);
        assert(m64 >= 1 && m64 <= 0x8000_0000) by (nonlinear_arith)
            requires
                m64 > 0 ==> (2 * m64 - 1) * (2 * m64 - 1) * 1 <= 4 * n,
                4 * n < (2 * m64 + 1) * (2 * m64 + 1) * 1,
                1 <= n <= 0x2000_0000_0000_0000,
        ;
        let m = m64 as i64;
        proof {
            assert(is_round_sqrt(m as int, n as int));
            lemma_round_sqrt_unique(m as int, n as int);
        }
        let mut group_ops: u64 = 0;
        let mut babies: HashMap<u128, i64> = HashMap::new();
        for i in 0..m
            invariant
                1 <= m <= 0x8000_0000,
                order_ok::<G>(),
                group_ops == i,
                group_laws::<G>() ==> keys_at::<G>(babies@, 0),
                forall|k: u128| #[trigger] babies@.contains_key(k) ==> 0 <= babies@[k] < m,
                forall|j: int|
                    0 <= j < i ==> babies@.contains_key(#[trigger] G::spec_gen_mul(j).spec_key()),
        {
            let baby = generator_scalar_mul_i64::<G>(i);
            proof {
                if group_laws::<G>() {
                    lemma_keys_at_insert::<G>(babies@, 0, i);
                    assert(0 + i == i);
                }
            }
            babies.insert(baby.key(), i);
            group_ops = group_ops + 1;
        }
        let giant_step = generator_scalar_mul_i64::<G>(m).group_neg();
        let mut giant_distance: i64 = 0;
        let mut giant = element;
        let ghost mut steps: int = 0;
        loop
            invariant
                1 <= m <= 0x8000_0000,
                m == round_sqrt(n as int),
                steps >= 0,
                giant_distance == steps * m,
                steps <= giant_distance,
                group_ops == m + steps,
                ok == (group_laws::<G>() && G::spec_gen_mul(x0) == element),
                x0 == some_dlog(element),
                0 <= giant_distance,
                ok ==> giant == G::spec_gen_mul(x0 - giant_distance),
                ok ==> giant_step == G::spec_gen_mul(-m),
                group_laws::<G>() ==> keys_at::<G>(babies@, 0),
                forall|k: u128| #[trigger] babies@.contains_key(k) ==> 0 <= babies@[k] < m,
                forall|j: int|
                    0 <= j < m ==> babies@.contains_key(#[trigger] G::spec_gen_mul(j).spec_key()),
                found == has_log_in(element, 0, n as int),
                found ==> 0 <= xi < n && G::spec_gen_mul(xi) == element,
                found ==> giant == G::spec_gen_mul(xi - giant_distance) && giant_distance <= xi,
                1 <= n <= 0x2000_0000_0000_0000,
                order_ok::<G>(),
            decreases i64::MAX - giant_distance,
        {
            if giant_distance > i64::MAX - m {
                return None;
            }
            let key = giant.key();
            match babies.get(&key) {
                Some(baby_distance) => {
                    let discrete_log = giant_distance + *baby_distance;
                    proof {
                        if ok {
                            lemma_same_key::<G>(0 + babies@[key], x0 - giant_distance);
                            lemma_unshift(*baby_distance as int, x0, giant_distance as int,
                                G::spec_order());
                        }
                        lemma_solves_from_witness(element, discrete_log as int);
                        if found {
                            let q = G::spec_order();
                            lemma_same_key::<G>(0 + babies@[key], xi - giant_distance);
                            lemma_unshift(*baby_distance as int, xi, giant_distance as int, q);
                            lemma_exact(discrete_log as int, xi, q);
                            vstd::arithmetic::div_mod::lemma_fundamental_div_mod_converse(
                                xi,
                                m as int,
                                steps,
                                *baby_distance as int,
                            );
                        }
                    }
                    return Some(Solution::new(discrete_log, group_ops));
                },
                None => {},
            }
            proof {
                if ok {
                    assert(G::spec_gen_mul(x0 - giant_distance).spec_add(G::spec_gen_mul(-m))
                        == G::spec_gen_mul(x0 - giant_distance + -m));
                }
                if found {
                    assert(G::spec_gen_mul(x0) == G::spec_gen_mul(xi));
                    if xi - giant_distance < m {
                        assert(babies@.contains_key(G::spec_gen_mul(xi - giant_distance).spec_key()));
                    }
                    assert(G::spec_gen_mul(xi - giant_distance).spec_add(G::spec_gen_mul(-m))
                        == G::spec_gen_mul(xi - giant_distance + -m));
                }
            }
            giant = giant.group_add(&giant_step);
            proof {
                assert((steps + 1) * m == steps * m + m) by (nonlinear_arith);
                steps = steps + 1;
            }
            giant_distance = giant_distance + m;
            group_ops = group_ops + 1;
        }
    }
}

impl DiscreteLogSolver for Basic {
    open spec fn accepts(&self, l: int, h: int) -> bool {
        true
    }

    fn solve<G: KangarooGroup>(
        &self,
        element: G,
        l: i64,
        h: i64,
        rng: &mut Xoshiro256PlusPlus,
    ) -> (r: Option<Solution>)
        ensures
            has_log_in(element, l as int, h as int) ==> (r matches Some(s) && is_log_in(
                element,
                l as int,
                h as int,
                s.spec_discrete_log() as int,
            ) && s.spec_group_ops() == round_sqrt(h - l) + (s.spec_discrete_log() - l)
                / round_sqrt(h - l)),
    {
        let n = h - l;
        let shift = l;
        let shifted = element.group_sub(&generator_scalar_mul_i64::<G>(shift));
        proof {
            if has_log_in(element, l as int, h as int) {
                lemma_has_log_shift(element, l as int, h as int, shift as int);
                assert(l - shift == 0 && h - shift == n);
            }
        }
        let solution = self.solve_zero_based(shifted, n)?;
        let discrete_log = solution.discrete_log().checked_add(shift)?;
        proof {
            assert forall|x: int|
                #![trigger G::spec_gen_mul(x)]
                group_laws::<G>() && G::spec_gen_mul(x) == element && l <= x < h implies (
                discrete_log as int) % G::spec_order() == x % G::spec_order() by {
                lemma_shift::<G>(x, shift as int);
                lemma_unshift(solution.spec_discrete_log() as int, x, shift as int,
                    G::spec_order());
            }
            if has_log_in(element, l as int, h as int) {
                assert(l - shift == 0 && h - shift == n);
                lemma_is_log_unshift(element, l as int, h as int, shift as int,
                    solution.spec_discrete_log() as int);
            }
        }
        Some(Solution::new(discrete_log, solution.group_ops()))
    }
}

} // verus!
