use kangaroo_lab_verified::dlog::solver::gaudry_schost_sim::GaudrySchostSimulator;
use kangaroo_lab_verified::dlog::solver::pollard_four_kangaroo::PollardFourKangarooSolver;
use kangaroo_lab_verified::dlog::solver::pollard_kangaroo::PollardKangarooSolver;
use kangaroo_lab_verified::dlog::solver::pollard_three_kangaroo::PollardThreeKangarooSolver;
use kangaroo_lab_verified::dlog::solver::{run_solver_stats, DiscreteLogSolver};
use kangaroo_lab_verified::group::ectoy::ECToyGroup;
use kangaroo_lab_verified::group::helpers::generator_scalar_mul_i64;
use kangaroo_lab_verified::group::toy::ToyGroup;
use kangaroo_lab_verified::group::KangarooGroup;
use rand::rngs::{SysRng, Xoshiro256PlusPlus};
use rand::{RngExt, SeedableRng};
use std::error::Error;

// Interval widths of the sampled instances: 128 runs over 2^48 take minutes on
// the toy group and hours on the curve, so the runs here use narrower intervals.
const RANGE_BITS: u32 = 32;
const ECTOY_RANGE_BITS: u32 = 24;
const ITERS: u64 = 128;
const BUCKET_BITS: u32 = 8;
const DP_BITS: u32 = 4;

struct Summary {
    n: u64,
    mean: f64,
    std_dev: f64,
    median: f64,
}

fn summarize(samples: &[u64], range_bits: u32) -> Summary {
    let width = ((1u64 << range_bits) as f64).sqrt();
    let mut ks: Vec<f64> = samples.iter().map(|&s| s as f64 / width).collect();
    let n = ks.len() as u64;
    let mean = ks.iter().sum::<f64>() / n as f64;
    let std_dev = (ks.iter().map(|k| (k - mean) * (k - mean)).sum::<f64>() / (n - 1) as f64).sqrt();
    ks.sort_by(|a, b| a.total_cmp(b));
    let median = if ks.len() % 2 == 0 {
        let a = ks[ks.len() / 2 - 1];
        let b = ks[ks.len() / 2];
        a + (b - a) / 2.0
    } else {
        ks[ks.len() / 2]
    };
    Summary { n, mean, std_dev, median }
}

fn run_solver_stats_test<G: KangarooGroup>(
    name: &str,
    solver: &mut impl DiscreteLogSolver<G>,
    range_bits: u32,
) -> Result<(), Box<dyn Error>> {
    let mut rng = Xoshiro256PlusPlus::try_from_rng(&mut SysRng)?;
    let samples = run_solver_stats::<G, _>(solver, range_bits, ITERS, &mut rng)
        .expect("every run recovers the drawn logarithm");
    let summary = summarize(&samples, range_bits);
    println!(
        "{name} run_solver_stats summary: n={}, mean={:.2}, std_dev={:.2}, median={:.2}",
        summary.n, summary.mean, summary.std_dev, summary.median,
    );

    assert_eq!(summary.n, ITERS);
    assert!(summary.mean.is_finite());
    assert!(summary.mean > 0.0);
    assert!(summary.std_dev.is_finite());
    assert!(summary.median.is_finite());
    Ok(())
}

#[test]
fn run_solver_stats_runs_pollard_kangaroo() -> Result<(), Box<dyn Error>> {
    let mut solver = PollardKangarooSolver::new(BUCKET_BITS, DP_BITS);
    run_solver_stats_test::<ToyGroup>("pollard kangaroo", &mut solver, RANGE_BITS)
}

#[test]
fn run_solver_stats_runs_pollard_three_kangaroo() -> Result<(), Box<dyn Error>> {
    let mut solver = PollardThreeKangarooSolver::new(BUCKET_BITS, DP_BITS);
    run_solver_stats_test::<ToyGroup>("pollard three kangaroo", &mut solver, RANGE_BITS)
}

#[test]
fn run_solver_stats_runs_pollard_four_kangaroo() -> Result<(), Box<dyn Error>> {
    let mut solver = PollardFourKangarooSolver::new(BUCKET_BITS, DP_BITS);
    run_solver_stats_test::<ToyGroup>("pollard four kangaroo", &mut solver, RANGE_BITS)
}

#[test]
fn run_solver_stats_runs_pollard_kangaroo_ectoy() -> Result<(), Box<dyn Error>> {
    let mut solver = PollardKangarooSolver::new(BUCKET_BITS, DP_BITS);
    run_solver_stats_test::<ECToyGroup>("pollard kangaroo ectoy", &mut solver, ECTOY_RANGE_BITS)
}

#[test]
fn run_solver_stats_runs_pollard_three_kangaroo_ectoy() -> Result<(), Box<dyn Error>> {
    let mut solver = PollardThreeKangarooSolver::new(BUCKET_BITS, DP_BITS);
    run_solver_stats_test::<ECToyGroup>("pollard three kangaroo ectoy", &mut solver, ECTOY_RANGE_BITS)
}

#[test]
fn run_solver_stats_runs_pollard_four_kangaroo_ectoy() -> Result<(), Box<dyn Error>> {
    let mut solver = PollardFourKangarooSolver::new(BUCKET_BITS, DP_BITS);
    run_solver_stats_test::<ECToyGroup>("pollard four kangaroo ectoy", &mut solver, ECTOY_RANGE_BITS)
}

#[test]
fn pollard_kangaroo_solves_toy_group_interval_2_32() -> Result<(), Box<dyn Error>> {
    const LOW: i64 = 0;
    const HIGH: i64 = 1i64 << 48;

    let mut rng = Xoshiro256PlusPlus::try_from_rng(&mut SysRng)?;
    let dlog = rng.random_range(LOW..HIGH);
    let element = generator_scalar_mul_i64::<ToyGroup>(dlog);
    let solver = PollardKangarooSolver::new(BUCKET_BITS, DP_BITS);

    let result = solver.solve(LOW, HIGH, element, &mut rng).expect("the walks meet");
    let n = (HIGH - LOW) as f64;
    let k = result.iters as f64 / n.sqrt();
    println!(
        "pollard kangaroo toy interval [0, 2^32): dlog={}, iters={}, k={:.6}",
        dlog, result.iters, k
    );

    assert_eq!(result.dlog, dlog);
    Ok(())
}

#[test]
fn solves_ectoy_group_small_interval() -> Result<(), Box<dyn Error>> {
    const LOW: i64 = 0;
    const HIGH: i64 = 1i64 << 32;

    let mut rng = Xoshiro256PlusPlus::try_from_rng(&mut SysRng)?;
    let dlog = rng.random_range(LOW..HIGH);
    let element = generator_scalar_mul_i64::<ECToyGroup>(dlog);
    let solver = PollardKangarooSolver::new(BUCKET_BITS, DP_BITS);

    let result = solver.solve(LOW, HIGH, element, &mut rng).expect("the walks meet");
    let n = (HIGH - LOW) as f64;
    let k = result.iters as f64 / n.sqrt();
    println!(
        "pollard kangaroo ectoy interval [0, 2^16): dlog={}, iters={}, k={:.2}",
        dlog, result.iters, k
    );

    assert_eq!(result.dlog, dlog);
    Ok(())
}

#[test]
fn pollard_three_kangaroo_solves_toy_group_interval_2_32() {
    const LOW: i64 = 0;
    const HIGH: i64 = 1i64 << 32;

    let mut rng = Xoshiro256PlusPlus::seed_from_u64(0x7a1e_3eed_cafe_babe);
    let dlog = rng.random_range(LOW..HIGH);
    let element = generator_scalar_mul_i64::<ToyGroup>(dlog);
    let solver = PollardThreeKangarooSolver::new(BUCKET_BITS, DP_BITS);

    let result = solver.solve(LOW, HIGH, element, &mut rng).expect("the walks meet");
    let n = (HIGH - LOW) as f64;
    let k = result.iters as f64 / n.sqrt();
    println!(
        "pollard three kangaroo toy interval [0, 2^32): dlog={}, iters={}, k={:.6}",
        dlog, result.iters, k
    );

    assert_eq!(result.dlog, dlog);
}

fn simulate_gaudry_schost_smoke<G: KangarooGroup>() -> Result<(), Box<dyn Error>> {
    let mut rng = Xoshiro256PlusPlus::try_from_rng(&mut SysRng)?;
    let sim = GaudrySchostSimulator::new(1, 32);

    let iters = sim.simulate::<G>(32, &mut rng);
    assert!(iters.is_some());
    Ok(())
}

#[test]
fn simulate_gaudry_schost_toy_smoke() -> Result<(), Box<dyn Error>> {
    for _ in 1..256 {
        simulate_gaudry_schost_smoke::<ToyGroup>()?;
    }
    Ok(())
}

#[test]
fn pollard_three_kangaroo_fixed_table_run() {
    // A 16-wide interval with the jump table {1, 2}: the walks are
    // deterministic and must meet at the logarithm.
    let solver = PollardThreeKangarooSolver::new(1, 1);
    let element = generator_scalar_mul_i64::<ToyGroup>(-9);
    let table = vec![
        (1i64, generator_scalar_mul_i64::<ToyGroup>(1)),
        (2i64, generator_scalar_mul_i64::<ToyGroup>(2)),
    ];
    let first = solver.run_walks(-20, -4, element, &table).expect("the walks meet");
    assert_eq!(first.dlog, -9);
    assert!(first.iters >= 1);
    let again = solver.run_walks(-20, -4, element, &table).expect("the walks meet");
    assert_eq!(again.iters, first.iters);
    let mut rng = Xoshiro256PlusPlus::seed_from_u64(1);
    let solved = solver.solve(-20, -4, element, &mut rng).expect("solved");
    assert_eq!(solved.dlog, -9);
}

#[test]
fn pollard_kangaroo_fixed_table_run() {
    let solver = PollardKangarooSolver::new(1, 1);
    for x in 0..64i64 {
        let element = generator_scalar_mul_i64::<ToyGroup>(x);
        let table = vec![
            (1i64, generator_scalar_mul_i64::<ToyGroup>(1)),
            (2i64, generator_scalar_mul_i64::<ToyGroup>(2)),
        ];
        let found = solver.run_walks(0, 64, element, &table).expect("the walks meet");
        assert_eq!(found.dlog, x);
        assert!(found.iters >= 1);
    }
}
