//! Interleaved baby-step giant-step on the classes `{P, -P}`: baby and giant
//! walks advance in turn, each checked against the other's table, with giant
//! steps of `m = round(sqrt(2N))`.
use std::collections::HashMap;
use vstd::prelude::*;

use crate::dlp::method::baby_step_giant_step::neg_map::{class_key, lemma_class_key_symmetric};
use crate::dlp::{
    has_log_in, is_log_in, keys_at, lemma_exact, lemma_has_log_shift, lemma_is_log_unshift,
    lemma_keys_at_insert, lemma_same_key, lemma_shift, lemma_solve_signed,
    lemma_solves_from_witness, lemma_unshift, order_ok, signed_keys_at, signed_position, solves,
    some_dlog, DiscreteLogSolver, Solution,
};
use crate::group::{generator_scalar_mul_i64, group_laws, negation_map_law, KangarooGroup};
use crate::num::{is_round_sqrt, lemma_round_sqrt_unique, round_sqrt, round_sqrt_ratio};
use rand::rngs::Xoshiro256PlusPlus;

verus! {

broadcast use vstd::std_specs::hash::group_hash_axioms;

/// Interleaved baby-step giant-step with the negation map.
#[derive(Default)]
pub struct Interleaved;

/// The point `x - j * m` reached by the `j`-th giant step from `x * G`.
pub open spec fn giant_position(x: int, m: int, j: int) -> int {
    x - j * m
}

/// The baby point `b G` and the `j`-th giant point `(x - j m) G` fall in the
/// same class `{P, -P}`.
pub open spec fn interleaved_meet<G: KangarooGroup>(x: int, m: int, b: int, j: int) -> bool {
    1 <= b && 1 <= j && class_key::<G>(b) == class_key::<G>(giant_position(x, m, j))
}

/// The operation count at which the pair `(b, j)` is compared: the `b`-th
/// baby step is compared with the earlier giant points, the `j`-th giant
/// step with the baby points up to its own.
pub open spec fn interleaved_event(b: int, j: int) -> int {
    if j < b {
        2 * b - 1
    } else {
        2 * j
    }
}

/// `ops` is the count at which the first meeting pair for `x` is compared,
/// with giant steps of `m = round(sqrt(2N))`.
pub open spec fn interleaved_ops<G: KangarooGroup>(x: int, n: int, ops: int) -> bool {
    let m = round_sqrt(2 * n);
    &&& exists|b: int, j: int|
        #[trigger] interleaved_meet::<G>(x, m, b, j) && interleaved_event(b, j) == ops
    &&& forall|b: int, j: int|
        #[trigger] interleaved_meet::<G>(x, m, b, j) ==> interleaved_event(b, j) >= ops
}

/// The pair met first when `x` is found: `x == j * m - b` with
/// `1 <= b <= m`, `j = floor(x / m) + 1`, reached within `K = max(b, j)`
/// steps of each walk, with `K * m <= 2N + m` and `K * (m + 1) <= 2N + 2m`.
proof fn lemma_interleaved_target(x: int, m: int, n: int) -> (r: (int, int))
    requires
        1 <= n,
        0 <= x < n,
        1 <= m,
        (2 * m - 1) * (2 * m - 1) <= 8 * n,
    ensures
        1 <= r.0 <= m,
        1 <= r.1,
        giant_position(x, m, r.1) == -r.0,
        ({
            let k = if r.0 >= r.1 { r.0 } else { r.1 };
            &&& k * m <= 2 * n + m
            &&& k * m + k <= 2 * n + 2 * m
            &&& k <= n + m
        }),
{
    let q = x / m;
    let rem = x % m;
    vstd::arithmetic::div_mod::lemma_fundamental_div_mod(x, m);
    vstd::arithmetic::div_mod::lemma_mod_bound(x, m);
    vstd::arithmetic::div_mod::lemma_div_pos_is_pos(x, m);
    let b = m - rem;
    let j = q + 1;
    assert(x == m * q + rem);
    assert(j * m == m * q + m) by (nonlinear_arith)
        requires
            j == q + 1,
    ;
    assert(giant_position(x, m, j) == -b);
    assert(m * m <= 2 * n + m) by (nonlinear_arith)
        requires
            (2 * m - 1) * (2 * m - 1) <= 8 * n,
            1 <= m,
    ;
    assert(b * m <= m * m) by (nonlinear_arith)
        requires
            1 <= b <= m,
    ;
    assert(q <= x) by (nonlinear_arith)
        requires
            x == m * q + rem,
            0 <= rem,
            1 <= m,
            q >= 0,
    ;
    let k = if b >= j { b } else { j };
    if b >= j {
        assert(k * m + k <= 2 * n + 2 * m);
    } else {
        assert(k * m == x + b);
    }
    (b, j)
}

/// A match of the baby point at distance `d` (signed) with the giant point
/// at the signed distance `c` solves `x` exactly when the distances are
/// small against the group order.
proof fn lemma_interleaved_match<G: KangarooGroup>(
    element: G,
    x0: int,
    xi: int,
    found: bool,
    d: int,
    c: int,
    bound: int,
)
    requires
        x0 == some_dlog(element),
        c != 0,
        group_laws::<G>() && G::spec_gen_mul(x0) == element ==> G::spec_gen_mul(d).spec_key()
            == G::spec_gen_mul(signed_position(x0, c)).spec_key(),
        found ==> group_laws::<G>() && 0 <= xi < bound && G::spec_gen_mul(xi) == element,
        found ==> -bound <= (if c > 0 { c + d } else { -c - d }) - xi < bound,
        bound < G::spec_order(),
    ensures
        solves(element, if c > 0 { c + d } else { -c - d }),
        found ==> (if c > 0 { c + d } else { -c - d }) == xi,
{
    let v = if c > 0 { c + d } else { -c - d };
    if group_laws::<G>() && G::spec_gen_mul(x0) == element {
        lemma_same_key::<G>(d, signed_position(x0, c));
        lemma_solve_signed(d, c, x0, G::spec_order());
    }
    lemma_solves_from_witness(element, v);
    if found {
        assert(G::spec_gen_mul(x0) == G::spec_gen_mul(xi));
        lemma_exact(v, xi, G::spec_order());
    }
}

impl Interleaved {
    /// The interleaved search over `[0, N)`: it finds the logarithm whenever
    /// it lies in `[0, N)` (and the negation map picks one of `P` and `-P`),
    /// at the first comparison of a baby and a giant point in one class.
    fn solve_zero_based<G: KangarooGroup>(&self, element: G, n: i64) -> (r: Option<Solution>)
        requires
            1 <= n <= 0x2000_0000_0000_0000,
            order_ok::<G>(),
        ensures
            r matches Some(s) ==> solves(element, s.spec_discrete_log() as int),
            has_log_in(element, 0, n as int) && negation_map_law::<G>() ==> (r matches Some(s)
                && is_log_in(element, 0, n as int, s.spec_discrete_log() as int)
                && interleaved_ops::<G>(
                s.spec_discrete_log() as int,
                n as int,
                s.spec_group_ops() as int,
            )),
    {
        let ghost x0 = some_dlog(element);
        let ghost ok = group_laws::<G>() && G::spec_gen_mul(x0) == element;
        let ghost found = has_log_in(element, 0, n as int) && negation_map_law::<G>();
        let ghost xi = choose|x: int| 0 <= x < n && #[trigger] G::spec_gen_mul(x) == element;
        let m64 = round_sqrt_ratio((n * 2) as u128, 1);
        assert(m64 >= 1 && m64 <= 0x8000_0000) by (nonlinear_arith)
            requires
                m64 > 0 ==> (2 * m64 - 1) * (2 * m64 - 1) * 1 <= 4 * (n * 2),
                4 * (n * 2) < (2 * m64 + 1) * (2 * m64 + 1) * 1,
                1 <= n <= 0x2000_0000_0000_0000,
        ;
        let m = m64 as i64;
        proof {
            assert(is_round_sqrt(m as int, 2 * n));
            lemma_round_sqrt_unique(m as int, 2 * n);
        }
        let ghost target = if found {
            lemma_interleaved_target(xi, m as int, n as int)
        } else {
            (0int, 0int)
        };
        let ghost target_steps = if target.0 >= target.1 {
            target.0
        } else {
            target.1
        };
        let mut group_ops: u64 = 0;

        let mut baby_distance: i64 = 0;
        let mut baby = G::identity();
        let mut babies: HashMap<u128, i64> = HashMap::new();
        let baby_step_distance: i64 = 1;
        let baby_step = G::generator();

        let mut giant_distance: i64 = 0;
        let mut giant = element;
        let mut giants: HashMap<u128, i64> = HashMap::new();
        let giant_step_distance = m;
        let giant_step = generator_scalar_mul_i64::<G>(m);
        let ghost mut baby_steps: Map<u128, int> = Map::empty();
        let ghost mut giant_steps: Map<u128, int> = Map::empty();

        loop
            invariant
                1 <= m <= 0x8000_0000,
                m == round_sqrt(2 * n),
                found ==> forall|key: u128| #[trigger]
                    babies@.contains_key(key) ==> baby_steps.contains_key(key) && 1
                        <= baby_steps[key] <= baby_distance && key == class_key::<G>(
                        baby_steps[key],
                    ),
                found ==> forall|key: u128| #[trigger]
                    giants@.contains_key(key) ==> giant_steps.contains_key(key) && 1
                        <= giant_steps[key] <= baby_distance && key == class_key::<G>(
                        giant_position(xi, m as int, giant_steps[key]),
                    ),
                found ==> forall|b: int, j: int| #[trigger]
                    interleaved_meet::<G>(xi, m as int, b, j) ==> interleaved_event(b, j) > 2
                        * baby_distance,
                1 <= n <= 0x2000_0000_0000_0000,
                (2 * m - 1) * (2 * m - 1) <= 8 * n,
                order_ok::<G>(),
                giant_step_distance == m,
                baby_step_distance == 1,
                ok == (group_laws::<G>() && G::spec_gen_mul(x0) == element),
                x0 == some_dlog(element),
                0 <= baby_distance,
                giant_distance == baby_distance * m,
                giant_distance <= 0x5000_0000_0000_0000,
                group_ops == 2 * baby_distance,
                group_laws::<G>() ==> baby == G::spec_gen_mul(baby_distance as int),
                ok ==> giant == G::spec_gen_mul(x0 - giant_distance),
                group_laws::<G>() ==> baby_step == G::spec_gen_mul(1),
                ok ==> giant_step == G::spec_gen_mul(m as int),
                group_laws::<G>() ==> keys_at::<G>(babies@, 0),
                ok ==> signed_keys_at::<G>(giants@, x0),
                forall|k: u128| #[trigger]
                    babies@.contains_key(k) ==> -baby_distance <= babies@[k] <= baby_distance,
                forall|k: u128| #[trigger]
                    giants@.contains_key(k) ==> -giant_distance <= giants@[k] <= giant_distance
                        && giants@[k] != 0,
                baby_distance <= giant_distance,
                found == (has_log_in(element, 0, n as int) && negation_map_law::<G>()),
                found ==> 0 <= xi < n && G::spec_gen_mul(xi) == element,
                found ==> giant == G::spec_gen_mul(xi - giant_distance),
                found ==> 1 <= target.0 <= m && 1 <= target.1 && giant_position(
                    xi,
                    m as int,
                    target.1,
                ) == -target.0,
                found ==> target_steps * m <= 2 * n + m && target_steps * m + target_steps <= 2
                    * n + 2 * m && target_steps <= n + m,
                target_steps == (if target.0 >= target.1 {
                    target.0
                } else {
                    target.1
                }),
                found ==> baby_distance < target_steps,
                found ==> forall|b: int|
                    1 <= b <= baby_distance ==> babies@.contains_key(#[trigger] class_key::<G>(b)),
                found ==> forall|j: int|
                    1 <= j <= baby_distance ==> giants@.contains_key(
                        #[trigger] class_key::<G>(giant_position(xi, m as int, j)),
                    ),
            decreases 0x5000_0000_0000_0000 - giant_distance,
        {
            proof {
                if found {
                    assert((baby_distance + 1) * m <= target_steps * m) by (nonlinear_arith)
                        requires
                            baby_distance + 1 <= target_steps,
                            m >= 1,
                    ;
                    assert((baby_distance + 1) * m == baby_distance * m + m) by (nonlinear_arith);
                }
            }
            if giant_distance > 0x5000_0000_0000_0000 - m {
                return None;
            }
            proof {
                if group_laws::<G>() {
                    assert(G::spec_gen_mul(baby_distance as int).spec_add(G::spec_gen_mul(1))
                        == G::spec_gen_mul(baby_distance + 1));
                }
                assert((baby_distance + 1) * m == baby_distance * m + m) by (nonlinear_arith);
                assert(baby_distance + 1 <= (baby_distance + 1) * m) by (nonlinear_arith)
                    requires
                        m >= 1,
                        baby_distance >= 0,
                ;
            }
            baby_distance = baby_distance + baby_step_distance;
            baby = baby.group_add(&baby_step);
            group_ops = group_ops + 1;
            let (d, b) = if baby.is_negation_map_representative() {
                (baby_distance, baby)
            } else {
                proof {
                    if group_laws::<G>() {
                        assert(G::spec_gen_mul(baby_distance as int).spec_neg() == G::spec_gen_mul(
                            -baby_distance,
                        ));
                    }
                }
                (-baby_distance, baby.group_neg())
            };
            let bkey = b.key();
            proof {
                if found {
                    assert(bkey == class_key::<G>(baby_distance as int));
                    if baby_distance == target.0 && target.1 <= baby_distance - 1 {
                        lemma_class_key_symmetric::<G>(target.0);
                        assert(giants@.contains_key(
                            class_key::<G>(giant_position(xi, m as int, target.1)),
                        ));
                    }
                }
            }
            match giants.get(&bkey) {
                Some(found_distance) => {
                    let gd = *found_distance;
                    let discrete_log = if gd < 0 {
                        (-gd).checked_sub(d)?
                    } else {
                        gd.checked_add(d)?
                    };
                    proof {
                        assert(0 + d == d);
                        lemma_interleaved_match::<G>(element, x0, xi, found, d as int, gd as int,
                            0x6000_0000_0000_0000);
                        if found {
                            let j = giant_steps[bkey];
                            assert(interleaved_meet::<G>(xi, m as int, baby_distance as int, j));
                            assert(interleaved_event(baby_distance as int, j) == group_ops);
                        }
                    }
                    return Some(Solution::new(discrete_log, group_ops));
                },
                None => {},
            }
            proof {
                if group_laws::<G>() {
                    lemma_keys_at_insert::<G>(babies@, 0, d);
                    assert(0 + d == d);
                }
                if found {
                    assert forall|b: int, j: int| #[trigger]
                        interleaved_meet::<G>(xi, m as int, b, j) implies interleaved_event(b, j)
                        > 2 * baby_distance - 1 by {
                        if interleaved_event(b, j) == 2 * baby_distance - 1 {
                            assert(b == baby_distance && j < b);
                            assert(giants@.contains_key(
                                class_key::<G>(giant_position(xi, m as int, j)),
                            ));
                        }
                    }
                }
                baby_steps = baby_steps.insert(bkey, baby_distance as int);
            }
            babies.insert(bkey, d);

            proof {
                if ok {
                    lemma_shift::<G>(x0 - (giant_distance - m), m as int);
                }
                if found {
                    lemma_shift::<G>(xi - (giant_distance - m), m as int);
                }
            }
            giant_distance = giant_distance + giant_step_distance;
            giant = giant.group_sub(&giant_step);
            group_ops = group_ops + 1;
            let (d, g) = if giant.is_negation_map_representative() {
                (giant_distance, giant)
            } else {
                proof {
                    if ok {
                        assert(G::spec_gen_mul(x0 - giant_distance).spec_neg() == G::spec_gen_mul(
                            -(x0 - giant_distance),
                        ));
                    }
                    if found {
                        assert(G::spec_gen_mul(xi - giant_distance).spec_neg() == G::spec_gen_mul(
                            -(xi - giant_distance),
                        ));
                    }
                }
                (-giant_distance, giant.group_neg())
            };
            assert(ok ==> g == G::spec_gen_mul(signed_position(x0, d as int)));
            let gkey = g.key();
            proof {
                if found {
                    assert(giant_position(xi, m as int, baby_distance as int) == xi - giant_distance);
                    assert(gkey == class_key::<G>(giant_position(xi, m as int, baby_distance as int)));
                    if baby_distance == target.1 && target.0 <= baby_distance {
                        lemma_class_key_symmetric::<G>(target.0);
                        assert(babies@.contains_key(class_key::<G>(target.0)));
                    }
                }
            }
            match babies.get(&gkey) {
                Some(found_distance) => {
                    let bd = *found_distance;
                    let discrete_log = if d < 0 {
                        (-d).checked_sub(bd)?
                    } else {
                        d.checked_add(bd)?
                    };
                    proof {
                        lemma_interleaved_match::<G>(element, x0, xi, found, bd as int, d as int,
                            0x6000_0000_0000_0000);
                        if found {
                            let b = baby_steps[gkey];
                            assert(interleaved_meet::<G>(xi, m as int, b, baby_distance as int));
                            assert(interleaved_event(b, baby_distance as int) == group_ops);
                        }
                    }
                    return Some(Solution::new(discrete_log, group_ops));
                },
                None => {},
            }
            proof {
                if found {
                    assert forall|b: int, j: int| #[trigger]
                        interleaved_meet::<G>(xi, m as int, b, j) implies interleaved_event(b, j)
                        > 2 * baby_distance by {
                        if interleaved_event(b, j) == 2 * baby_distance {
                            assert(j == baby_distance && b <= j);
                            assert(babies@.contains_key(class_key::<G>(b)));
                        }
                    }
                }
                giant_steps = giant_steps.insert(gkey, baby_distance as int);
            }
            giants.insert(gkey, d);
        }
    }
}

impl DiscreteLogSolver for Interleaved {
    open spec fn accepts(&self, l: int, h: int) -> bool {
        true
    }

    fn solve<G: KangarooGroup>(
        &self,
        element: G,
        l: i64,
        h: i64,
        rng: &mut Xoshiro256PlusPlus,
    ) -> (r: Option<Solution>)
        ensures
            has_log_in(element, l as int, h as int) && negation_map_law::<G>() ==> (r matches Some(
                s,
            ) && is_log_in(element, l as int, h as int, s.spec_discrete_log() as int)
                && interleaved_ops::<G>(
                s.spec_discrete_log() - l,
                h - l,
                s.spec_group_ops() as int,
            )),
    {
        let n = h - l;
        let shift = l;
        let shifted = element.group_sub(&generator_scalar_mul_i64::<G>(shift));
        proof {
            if has_log_in(element, l as int, h as int) {
                lemma_has_log_shift(element, l as int, h as int, shift as int);
                assert(l - shift == 0 && h - shift == n);
            }
        }
        let solution = self.solve_zero_based(shifted, n)?;
        let discrete_log = solution.discrete_log().checked_add(shift)?;
        proof {
            assert forall|x: int|
                #![trigger G::spec_gen_mul(x)]
                group_laws::<G>() && G::spec_gen_mul(x) == element && l <= x < h implies (
                discrete_log as int) % G::spec_order() == x % G::spec_order() by {
                lemma_shift::<G>(x, shift as int);
                lemma_unshift(solution.spec_discrete_log() as int, x, shift as int,
                    G::spec_order());
            }
            if has_log_in(element, l as int, h as int) && negation_map_law::<G>() {
                assert(l - shift == 0 && h - shift == n);
                lemma_is_log_unshift(element, l as int, h as int, shift as int,
                    solution.spec_discrete_log() as int);
            }
        }
        Some(Solution::new(discrete_log, solution.group_ops()))
    }
}

} // verus!
