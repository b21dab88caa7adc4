use kangaroo_lab_verified::dlog::solver::gaudry_schost_sim::GaudrySchostSimulator;
use kangaroo_lab_verified::dlog::solver::pollard_kangaroo::PollardKangarooSolver;
use kangaroo_lab_verified::dlog::solver::{run_solver_stats, DiscreteLogSolver};
use kangaroo_lab_verified::dlp::jump::{
    complete_jump_table, generate_uniform_jump_table_distances, uniform_jump_table_bounds,
};
use kangaroo_lab_verified::dlp::method::gaudry_schost::params::{Params, Parity, Type, Walk};
use kangaroo_lab_verified::group::ectoy::ECToyGroup;
use kangaroo_lab_verified::group::{generator_scalar_mul_i64, KangarooGroup};
use kangaroo_lab_verified::group::toy::ToyGroup;
use kangaroo_lab_verified::num::{ceil_sqrt_ratio, floor_sqrt_ratio, isqrt, round_sqrt_ratio};
use rand::rngs::Xoshiro256PlusPlus;
use rand::SeedableRng;
use std::collections::HashMap;
use std::ops::ControlFlow;

fn gcd(a: i64, b: i64) -> i64 {
    if b == 0 {
        a.abs()
    } else {
        gcd(b, a % b)
    }
}

#[test]
fn integer_square_roots() {
    assert_eq!(isqrt(0), 0);
    assert_eq!(isqrt(15), 3);
    assert_eq!(isqrt(16), 4);
    assert_eq!(isqrt(1 << 62), 1 << 31);
    assert_eq!(floor_sqrt_ratio(50, 2), 5);
    assert_eq!(floor_sqrt_ratio(49, 2), 4);
    assert_eq!(ceil_sqrt_ratio(50, 2), 5);
    assert_eq!(ceil_sqrt_ratio(51, 2), 6);
    // sqrt(6.25) = 2.5 rounds up, sqrt(6) = 2.449 rounds down
    assert_eq!(round_sqrt_ratio(25, 4), 3);
    assert_eq!(round_sqrt_ratio(6, 1), 2);
    assert_eq!(round_sqrt_ratio(0, 1), 0);
}

#[test]
fn jump_table_bounds() {
    // mean = sqrt(2^32 / 4) = 32768: high = 65536, sum = 32768 * 256
    assert_eq!(uniform_jump_table_bounds(1 << 32, 1, 4, 8), (65536, 8388608));
    // mean = sqrt(10): high = ceil(6.32) = 7, sum = round(3.162 * 4) = 13
    assert_eq!(uniform_jump_table_bounds(10, 1, 1, 2), (7, 13));
}

#[test]
fn jump_tables_have_the_prescribed_sum() {
    let mut rng = Xoshiro256PlusPlus::seed_from_u64(21);
    for _ in 0..32 {
        let ds = generate_uniform_jump_table_distances(100, 12800, 8, &mut rng).unwrap();
        assert_eq!(ds.len(), 256);
        assert_eq!(ds.iter().sum::<i64>(), 12800);
        assert!(ds[..255].iter().all(|&d| 1 <= d && d < 100));
        assert!(ds[255] >= 1);
        assert_eq!(ds.iter().copied().fold(0, gcd), 1);
    }
}

#[test]
fn jump_tables_are_rejected_only_for_a_common_factor() {
    // Two entries, the first from {1, 2}, the sum 5: both [1, 4] and [2, 3]
    // have gcd 1, so both must come out.
    let mut rng = Xoshiro256PlusPlus::seed_from_u64(5);
    let mut seen_one = false;
    let mut seen_two = false;
    for _ in 0..64 {
        let ds = generate_uniform_jump_table_distances(3, 5, 1, &mut rng).unwrap();
        match ds.as_slice() {
            [1, 4] => seen_one = true,
            [2, 3] => seen_two = true,
            other => panic!("unexpected table {other:?}"),
        }
    }
    assert!(seen_one && seen_two);
    // With the sum 4, [2, 2] shares the factor 2 and is redrawn.
    for _ in 0..32 {
        let ds = generate_uniform_jump_table_distances(3, 4, 1, &mut rng).unwrap();
        assert_eq!(ds, vec![1, 3]);
    }
}

#[test]
fn jump_table_with_a_single_candidate_is_fixed() {
    // Every draw from 1..2 is 1, so the table is ones and the remainder.
    let mut rng = Xoshiro256PlusPlus::seed_from_u64(9);
    let ds = generate_uniform_jump_table_distances(2, 10, 2, &mut rng).unwrap();
    assert_eq!(ds, vec![1, 1, 1, 7]);
    let ds = generate_uniform_jump_table_distances(2, 4, 2, &mut rng).unwrap();
    assert_eq!(ds, vec![1, 1, 1, 1]);
}

#[test]
fn params_draw_distinct_even_jumps() {
    let mut rng = Xoshiro256PlusPlus::seed_from_u64(8);
    let params = Params::<ToyGroup>::new(1 << 20, 1000, 17, 4, 3, &mut rng).unwrap();
    let copy = params.duplicate();
    let mut rng2 = Xoshiro256PlusPlus::seed_from_u64(8);
    let again = Params::<ToyGroup>::new(1 << 20, 1000, 17, 4, 3, &mut rng2).unwrap();
    // the same draws give the same walks
    let mut map1: HashMap<u128, (Type, i64)> = HashMap::new();
    let mut map2: HashMap<u128, (Type, i64)> = HashMap::new();
    let mut w1 = Walk::new(copy, Type::TAME, Parity::EVEN, ToyGroup::zero(), 500, &mut rng);
    let mut w2 = Walk::new(again, Type::TAME, Parity::EVEN, ToyGroup::zero(), 500, &mut rng2);
    for _ in 0..200 {
        let a = w1.walk(&mut map1, &mut rng).unwrap();
        let b = w2.walk(&mut map2, &mut rng2).unwrap();
        assert_eq!(a, b);
    }
    assert_eq!(map1, map2);
    // every stored tame distance is even and names its point
    for (key, (typ, d)) in &map1 {
        assert_eq!(*typ, Type::TAME);
        assert_eq!(d % 2, 0);
        let point = generator_scalar_mul_i64::<ToyGroup>(*d);
        assert_eq!(point.key(), *key);
    }
    let _ = params;
}

#[test]
fn params_give_up_when_distinct_jumps_run_out() {
    // 8 jumps wanted, 9 candidate values but only 4 even ones: no table.
    let mut rng = Xoshiro256PlusPlus::seed_from_u64(1);
    assert!(Params::<ToyGroup>::new(1000, 10, 1, 3, 2, &mut rng).is_none());
    // fewer candidates than jumps: repeated jumps are allowed
    assert!(Params::<ToyGroup>::new(1000, 8, 1, 3, 2, &mut rng).is_some());
}

#[test]
fn walks_meet_and_report_the_logarithm() {
    let mut rng = Xoshiro256PlusPlus::seed_from_u64(99);
    let x = 12345i64;
    let target = generator_scalar_mul_i64::<ToyGroup>(x);
    let params = Params::<ToyGroup>::new(1 << 16, 128, 40, 5, 2, &mut rng).unwrap();
    let mut map: HashMap<u128, (Type, i64)> = HashMap::new();
    let mut tame = Walk::new(params.duplicate(), Type::TAME, Parity::EVEN, ToyGroup::zero(), 1 << 14, &mut rng);
    let mut wild = Walk::new(params.duplicate(), Type::WILD, Parity::EVEN, target, 1 << 14, &mut rng);
    let mut answer = None;
    for _ in 0..1_000_000 {
        if let ControlFlow::Break((v, _)) = tame.walk(&mut map, &mut rng).unwrap() {
            answer = Some(v);
            break;
        }
        if let ControlFlow::Break((v, _)) = wild.walk(&mut map, &mut rng).unwrap() {
            answer = Some(v);
            break;
        }
    }
    let v = answer.expect("the walks meet");
    assert!(v == x || v == -x);
}

#[test]
fn gaudry_schost_simulation_counts_operations() {
    let mut rng = Xoshiro256PlusPlus::seed_from_u64(4);
    let sim = GaudrySchostSimulator::new(1, 32);
    for _ in 0..16 {
        let iters = sim.simulate::<ToyGroup>(24, &mut rng).unwrap();
        assert!(iters >= 1);
    }
    let sim = GaudrySchostSimulator::new(1, 1);
    assert!(sim.simulate::<ECToyGroup>(12, &mut rng).unwrap() >= 2);
    // A tame set wider than the interval.
    let sim = GaudrySchostSimulator::new(7, 2);
    for _ in 0..8 {
        assert!(sim.simulate::<ToyGroup>(16, &mut rng).unwrap() >= 2);
    }
}

#[test]
fn jump_table_bounds_for_thirty_bucket_bits() {
    let (high, sum) = uniform_jump_table_bounds(1 << 60, 1, 4, 30);
    // high = ceil(sqrt(2^60)) = 2^30, sum = round(2^30 / 2 * 2^30) = 2^59.
    assert_eq!(high, 1 << 30);
    assert_eq!(sum, 1 << 59);
}

#[test]
fn run_solver_stats_collects_one_count_per_run() {
    let mut rng = Xoshiro256PlusPlus::seed_from_u64(12);
    let mut solver = PollardKangarooSolver::new(6, 2);
    let counts = run_solver_stats::<ToyGroup, _>(&mut solver, 20, 10, &mut rng).unwrap();
    assert_eq!(counts.len(), 10);
    assert!(counts.iter().all(|&c| c >= 1));
    let none = run_solver_stats::<ToyGroup, _>(&mut solver, 20, 0, &mut rng).unwrap();
    assert!(none.is_empty());
    let x = 77i64;
    let s = solver
        .solve(0, 1 << 20, generator_scalar_mul_i64::<ToyGroup>(x), &mut rng)
        .unwrap();
    assert_eq!(s.dlog, x);
}

#[test]
fn jump_table_completion_checks_the_last_entry_and_the_gcd() {
    assert_eq!(complete_jump_table(vec![1, 1, 1], 10), Some(vec![1, 1, 1, 7]));
    assert_eq!(complete_jump_table(vec![2, 2, 2], 8), None);
    assert_eq!(complete_jump_table(vec![3, 3], 5), None);
    assert_eq!(complete_jump_table(vec![4, 6], 13), Some(vec![4, 6, 3]));
}
