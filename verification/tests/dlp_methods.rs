use kangaroo_lab_verified::dlp::method::baby_step_giant_step::interleaved::Interleaved;
use kangaroo_lab_verified::dlp::method::baby_step_giant_step::{
    BabyStepGiantStepBasic, BabyStepGiantStepNegMap,
};
use kangaroo_lab_verified::dlp::method::gaudry_schost::sota_v2::SotaV2;
use kangaroo_lab_verified::dlp::method::gaudry_schost::sota_v2_overhead::solve_with_bounds;
use kangaroo_lab_verified::dlp::method::gaudry_schost_three_set::GaudrySchostImprovedThreeSetIdeal;
use kangaroo_lab_verified::dlp::method::pollard_four_kangaroo::PollardFourKangarooSolver;
use kangaroo_lab_verified::dlp::method::pollard_kangaroo::basic::Basic;
use kangaroo_lab_verified::dlp::method::pollard_kangaroo::four_kangaroo::PollardFourKangarooSolver as RandomJumpFourKangaroo;
use kangaroo_lab_verified::dlp::{DiscreteLogSolver, Solution};
use kangaroo_lab_verified::group::ectoy::ECToyGroup;
use kangaroo_lab_verified::group::generator_scalar_mul_i64;
use kangaroo_lab_verified::group::toy::ToyGroup;
use rand::rngs::{SysRng, Xoshiro256PlusPlus};
use rand::{RngExt, SeedableRng};
use std::error::Error;

#[test]
fn basic_solves_toy_group_interval_32_bits() -> Result<(), Box<dyn Error>> {
    const N_BITS: u32 = 32;

    let mut rng = Xoshiro256PlusPlus::try_from_rng(&mut SysRng)?;
    let low = rng.random_range(-(1 << 32)..(1 << 32));
    let high = low + (1 << N_BITS);
    let x = rng.random_range(low..high);
    let element = generator_scalar_mul_i64::<ToyGroup>(x);
    let solver = Basic;
    let result = solver.solve(element, low, high, &mut rng).expect("the walks meet");
    assert_eq!(result.discrete_log(), x);

    let n = (1u64 << N_BITS) as f64;
    let k = result.group_ops() as f64 / n.sqrt();
    println!("k = {:.02}", k);

    Ok(())
}

#[test]
fn four_kangaroo_solves_toy_group_interval_32_bits() -> Result<(), Box<dyn Error>> {
    const N_BITS: u32 = 32;

    let mut rng = Xoshiro256PlusPlus::try_from_rng(&mut SysRng)?;
    let low = rng.random_range(-(1 << 48)..(1 << 48));
    let high = low + (1 << N_BITS);
    let x = rng.random_range(low..high);
    let element = generator_scalar_mul_i64::<ToyGroup>(x);
    let solver = RandomJumpFourKangaroo;
    let result = solver.solve(element, low, high, &mut rng).expect("the walks meet");

    assert_eq!(result.discrete_log(), x);
    let n = (1u64 << N_BITS) as f64;
    let k = (result.group_ops() as f64) / n.sqrt();
    println!("k = {:.02}", k);

    Ok(())
}

#[test]
fn pollard_four_kangaroo_solves_toy_group_interval_32_bits() -> Result<(), Box<dyn Error>> {
    const N_BITS: u32 = 32;
    const BUCKET_BITS: u32 = 8;
    const DP_BITS: u32 = 4;

    let mut rng = Xoshiro256PlusPlus::try_from_rng(&mut SysRng)?;
    let low = rng.random_range(-(1 << 48)..(1 << 48));
    let high = low + (1 << N_BITS);
    let x = rng.random_range(low..high);
    let element = generator_scalar_mul_i64::<ToyGroup>(x);
    let solver = PollardFourKangarooSolver::new(BUCKET_BITS, DP_BITS);
    let result = solver.solve(element, low, high, &mut rng).expect("the walks meet");
    assert_eq!(result.discrete_log(), x);

    let n = (1u64 << N_BITS) as f64;
    let k = (result.group_ops() as f64) / n.sqrt();
    println!("k = {:.02}", k);
    Ok(())
}

#[test]
fn gaudry_schost_three_set_solves_toy_group_interval_32_bits() -> Result<(), Box<dyn Error>> {
    const N_BITS: u32 = 32;

    let mut rng = Xoshiro256PlusPlus::try_from_rng(&mut SysRng)?;

    for _ in 1..128 {
        let low = rng.random_range(-(1 << 48)..(1 << 48));
        let high = low + (1 << N_BITS);
        let x = rng.random_range(low..high);
        let element = generator_scalar_mul_i64::<ToyGroup>(x);
        let solver = GaudrySchostImprovedThreeSetIdeal::new();
        let result = solver.solve(element, low, high, &mut rng).expect("two sets meet");
        assert_eq!(result.discrete_log(), x);

        let n = (1u64 << N_BITS) as f64;
        let k = (result.group_ops() as f64) / n.sqrt();
        println!("k = {:.02}", k);
    }
    Ok(())
}

#[test]
fn sota_v2_solves_toy_group_interval_32_bits() -> Result<(), Box<dyn Error>> {
    const N_BITS: u32 = 32;

    let mut rng = Xoshiro256PlusPlus::try_from_rng(&mut SysRng)?;
    let low = rng.random_range(-(1 << 48)..(1 << 48));
    let high = low + (1 << N_BITS);
    let x = rng.random_range(low..high);
    let element = generator_scalar_mul_i64::<ToyGroup>(x);
    let solver = SotaV2;
    let result = solver.solve(element, low, high, &mut rng).expect("two points meet");
    assert_eq!(result.discrete_log(), x);

    let n = (1u64 << N_BITS) as f64;
    let k = (result.group_ops() as f64) / n.sqrt();
    println!("k = {:.02}", k);

    Ok(())
}

/// The integer parameters that `alpha`, `c` and `dp_bits` give for an
/// interval of width `n`: the jump bound, the guard interval and the tame
/// start width.
fn overhead_bounds(n: i64, alpha: f64, c: f64, dp_bits: u32) -> (i64, i64, i64) {
    let absolute_jump_mean = (n as f64).sqrt() * c;
    let max_absolute_jump = (absolute_jump_mean * 2.).ceil() as i64;
    let dp_probability = 2.0_f64.powi(-(dp_bits as i32));
    let guard_interval = (absolute_jump_mean
        * (2.0 / (3.0 * std::f64::consts::PI * dp_probability)).sqrt())
    .ceil() as i64;
    let tame_width = (((n / 2) as f64) * alpha).round() as i64;
    (max_absolute_jump, guard_interval, tame_width)
}

fn sota_v2_overhead_solve(
    element: ToyGroup,
    low: i64,
    high: i64,
    alpha: f64,
    c: f64,
    buckets_bits: u32,
    dp_bits: u32,
    rng: &mut Xoshiro256PlusPlus,
) -> Option<Solution> {
    let (max_absolute_jump, guard_interval, tame_width) =
        overhead_bounds(high - low, alpha, c, dp_bits);
    solve_with_bounds(
        element,
        low,
        high,
        max_absolute_jump,
        guard_interval,
        tame_width,
        buckets_bits,
        dp_bits,
        rng,
    )
}

#[test]
fn sota_v2_overhead_solves_toy_group_interval_32_bits() -> Result<(), Box<dyn Error>> {
    const N_BITS: u32 = 32;

    let mut rng = Xoshiro256PlusPlus::try_from_rng(&mut SysRng)?;
    let low = rng.random_range(-(1 << 48)..(1 << 48));
    let high = low + (1 << N_BITS);
    let x = rng.random_range(low..high);
    let element = generator_scalar_mul_i64::<ToyGroup>(x);
    let result = sota_v2_overhead_solve(element, low, high, 1. / 64., 1. / 4., 9, 4, &mut rng)
        .expect("two walks meet");
    assert_eq!(result.discrete_log(), x);

    let n = (1u64 << N_BITS) as f64;
    let k = (result.group_ops() as f64) / n.sqrt();
    println!("k = {:.02}", k);

    Ok(())
}

#[test]
fn solves_small_intervals_exhaustively() {
    let solver = Interleaved;
    let mut rng = Xoshiro256PlusPlus::seed_from_u64(7);

    for low in -8..8 {
        for high in low + 1..low + 40 {
            for x in low..high {
                let element = generator_scalar_mul_i64::<ToyGroup>(x);
                let result = solver
                    .solve(element, low, high, &mut rng)
                    .expect("the table is small");
                assert_eq!(result.discrete_log(), x, "interval {low}..{high}");
            }
        }
    }
}

#[test]
fn baby_step_giant_step_variants_solve_small_intervals() {
    let mut rng = Xoshiro256PlusPlus::seed_from_u64(11);
    for low in -20i64..20 {
        for width in 1i64..50 {
            let high = low + width;
            for x in low..high {
                let element = generator_scalar_mul_i64::<ToyGroup>(x);
                let basic = BabyStepGiantStepBasic
                    .solve(element, low, high, &mut rng)
                    .expect("the table is small");
                assert_eq!(basic.discrete_log(), x);
                let neg_map = BabyStepGiantStepNegMap
                    .solve(element, low, high, &mut rng)
                    .expect("the table is small");
                assert_eq!(neg_map.discrete_log(), x);
            }
        }
    }
}

#[test]
fn randomised_solvers_solve_curve_intervals() {
    let mut rng = Xoshiro256PlusPlus::seed_from_u64(0x5eed);
    let low = -(1i64 << 20);
    let high = low + (1 << 16);
    let x = rng.random_range(low..high);
    let element = generator_scalar_mul_i64::<ECToyGroup>(x);

    let basic = Basic.solve(element, low, high, &mut rng).expect("the walks meet");
    assert_eq!(basic.discrete_log(), x);
    let four = RandomJumpFourKangaroo
        .solve(element, low, high, &mut rng)
        .expect("the walks meet");
    assert_eq!(four.discrete_log(), x);
    let three_set = GaudrySchostImprovedThreeSetIdeal::new()
        .solve(element, low, high, &mut rng)
        .expect("two sets meet");
    assert_eq!(three_set.discrete_log(), x);
    let sota = SotaV2.solve(element, low, high, &mut rng).expect("two points meet");
    assert_eq!(sota.discrete_log(), x);
    let dp_four = PollardFourKangarooSolver::new(6, 3)
        .solve(element, low, high, &mut rng)
        .expect("the walks meet");
    assert_eq!(dp_four.discrete_log(), x);
}

#[test]
fn solvers_handle_the_interval_ends() {
    let mut rng = Xoshiro256PlusPlus::seed_from_u64(3);
    let low = 1000i64;
    let high = low + (1 << 12);
    for x in [low, low + 1, high - 2, high - 1] {
        let element = generator_scalar_mul_i64::<ToyGroup>(x);
        assert_eq!(Basic.solve(element, low, high, &mut rng).unwrap().discrete_log(), x);
        assert_eq!(
            RandomJumpFourKangaroo.solve(element, low, high, &mut rng).unwrap().discrete_log(),
            x
        );
        assert_eq!(
            GaudrySchostImprovedThreeSetIdeal::new()
                .solve(element, low, high, &mut rng)
                .unwrap()
                .discrete_log(),
            x
        );
        assert_eq!(SotaV2.solve(element, low, high, &mut rng).unwrap().discrete_log(), x);
        let overhead =
            sota_v2_overhead_solve(element, low, high, 1. / 64., 1. / 4., 5, 2, &mut rng).unwrap();
        assert_eq!(overhead.discrete_log(), x);
    }
}

#[test]
fn three_set_sampling_ranges() {
    // floor(0.294 * 500) = 147, ceil(0.882 * 500) = 441, ceil(0.294 * 500) = 147
    assert_eq!(GaudrySchostImprovedThreeSetIdeal::bounds(500), (147, 441, -147, 147));
    // floor(0.294 * 7) = 2, ceil(0.882 * 7) = 7, ceil(0.294 * 7) = 3
    assert_eq!(GaudrySchostImprovedThreeSetIdeal::bounds(7), (2, 7, -3, 3));
    assert_eq!(GaudrySchostImprovedThreeSetIdeal::bounds(1), (0, 1, -1, 1));
}

#[test]
fn random_jump_bounds() {
    // round(sqrt(2^32)) = 65536
    assert_eq!(Basic::jump_bound(1 << 32), 65536);
    assert_eq!(Basic::jump_bound(1), 1);
    // round(sqrt(9 * 2^32 / 32)) = round(34755.7) = 34756
    assert_eq!(RandomJumpFourKangaroo::jump_bound(1 << 32), 34756);
    assert_eq!(RandomJumpFourKangaroo::jump_bound(1), 1);
}

#[test]
fn baby_step_giant_step_operation_counts() {
    let mut rng = Xoshiro256PlusPlus::seed_from_u64(1);
    // N = 100, m = 10: 10 baby steps, then floor(37 / 10) = 3 giant steps
    let e = generator_scalar_mul_i64::<ToyGroup>(87);
    let basic = BabyStepGiantStepBasic.solve(e, 50, 150, &mut rng).unwrap();
    assert_eq!((basic.discrete_log(), basic.group_ops()), (87, 13));
    // half = 5: 6 baby steps, then the least j with |37 - 10 j| <= 5 is 4
    let neg_map = BabyStepGiantStepNegMap.solve(e, 50, 150, &mut rng).unwrap();
    assert_eq!((neg_map.discrete_log(), neg_map.group_ops()), (87, 10));
    // m = round(sqrt(200)) = 14: baby 5 meets giant 3 (37 - 42 = -5) at count 9
    let interleaved = Interleaved.solve(e, 50, 150, &mut rng).unwrap();
    assert_eq!((interleaved.discrete_log(), interleaved.group_ops()), (87, 9));
}
