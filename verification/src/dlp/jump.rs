//! Jump tables for kangaroo walks: `2^bits` positive jump distances with a
//! prescribed mean, drawn uniformly and adjusted by the last entry.
use vstd::arithmetic::mul::*;
use vstd::prelude::*;

use crate::num::{ceil_sqrt_ratio, gcd_i64, lemma_gcd_one, lemma_root_bound, round_sqrt_ratio, seq_gcd};
use crate::rng::random_range_i64;
use crate::group::{abs_int, generator_scalar_mul_i64, group_laws, KangarooGroup};
use rand::rngs::Xoshiro256PlusPlus;

verus! {

/// The sum of a sequence of distances.
pub open spec fn seq_sum(s: Seq<i64>) -> int
    decreases s.len(),
{
    if s.len() == 0 {
        0
    } else {
        seq_sum(s.drop_last()) + s.last()
    }
}

/// A jump table of `2^bits` distances for the bounds `(high, expected_sum)`:
/// all but the last drawn from `1..high`, the last making the sum
/// `expected_sum`, and no common divisor but `1`.
pub open spec fn is_uniform_jump_table(ds: Seq<i64>, high: int, expected_sum: int, bits: u32) -> bool {
    &&& ds.len() == vstd::arithmetic::power2::pow2(bits as nat)
    &&& forall|i: int| 0 <= i < ds.len() - 1 ==> 1 <= #[trigger] ds[i] < high
    &&& forall|i: int| 0 <= i < ds.len() ==> 1 <= #[trigger] ds[i] <= expected_sum
    &&& ds[ds.len() - 1] >= 1
    &&& seq_sum(ds) == expected_sum
    &&& seq_gcd(ds) == 1
}

/// `high = ceil(sqrt(4 n num / den))` and `sum = round(sqrt(n num 2^(2 bits) / den))`:
/// the bounds of a table of `2^bits` jumps of mean `sqrt(n num / den)`.
pub open spec fn jump_bounds_ok(n: int, num: int, den: int, bits: u32, high: int, sum: int) -> bool {
    &&& high >= 0 && sum >= 0
    &&& high * high * den >= 4 * n * num
    &&& high > 0 ==> (high - 1) * (high - 1) * den < 4 * n * num
    &&& sum > 0 ==> (2 * sum - 1) * (2 * sum - 1) * den <= 4 * (n * num
        * vstd::arithmetic::power2::pow2(2 * bits as nat))
    &&& 4 * (n * num * vstd::arithmetic::power2::pow2(2 * bits as nat)) < (2 * sum + 1) * (2 * sum
        + 1) * den
}

/// The bounds of a jump table whose mean jump is `sqrt(n * num / den)`:
/// `high = ceil(2 * mean)` and `expected_sum = round(mean * 2^bits)`.
pub fn uniform_jump_table_bounds(n: i64, num: u64, den: u64, bits: u32) -> (r: (i64, i64))
    requires
        1 <= n <= 0x2000_0000_0000_0000,
        1 <= num <= 16,
        1 <= den <= 1024,
        0 < bits <= 30,
    ensures
        jump_bounds_ok(n as int, num as int, den as int, bits, r.0 as int, r.1 as int),
        r.0 * r.0 * den >= 4 * n * num,
        r.0 > 0 ==> (r.0 - 1) * (r.0 - 1) * den < 4 * n * num,
        r.1 > 0 ==> (2 * r.1 - 1) * (2 * r.1 - 1) * den <= 4 * (n * num * vstd::arithmetic::power2::pow2(
            2 * bits as nat,
        )),
        4 * (n * num * vstd::arithmetic::power2::pow2(2 * bits as nat)) < (2 * r.1 + 1) * (2 * r.1 + 1)
            * den,
        0 <= r.0 <= 0x8_0000_0000,
        0 <= r.1 <= 0x5a83_0000_0000_0000,
{
    let shift: u64 = (2 * bits) as u64;
    proof {
        if shift < 60 {
            vstd::arithmetic::power2::lemma_pow2_strictly_increases(shift as nat, 60);
        }
        vstd::arithmetic::power2::lemma2_to64_rest();
        vstd::arithmetic::power2::lemma_pow2_pos(shift as nat);
        vstd::bits::lemma_u64_shl_is_mul(1, shift);
    }
    let scale: u128 = (1u64 << shift) as u128;
    proof {
        lemma_mul_upper_bound(n as int, 0x2000_0000_0000_0000, num as int, 16);
        lemma_mul_nonnegative(n as int, num as int);
    }
    let n_num: u128 = (n as u128) * (num as u128);
    let four_n_num: u128 = 4 * n_num;
    let high = ceil_sqrt_ratio(four_n_num, den as u128);
    proof {
        if high > 0 {
            lemma_root_bound((high - 1) as int, den as int, four_n_num as int, 0x8_0000_0000);
        }
    }
    proof {
        lemma_mul_upper_bound(n_num as int, 0x2_0000_0000_0000_0000, scale as int,
            0x1000_0000_0000_0000);
        lemma_mul_nonnegative(n_num as int, scale as int);
    }
    let total: u128 = n_num * scale;
    let sum = round_sqrt_ratio(total, den as u128);
    proof {
        if sum > 0 {
            lemma_root_bound((2 * sum - 1) as int, den as int, 4 * total as int,
                0xb505_0000_0000_0000);
        }
        lemma_mul_is_associative(n as int, num as int, scale as int);
        lemma_mul_is_associative(4, n as int, num as int);
    }
    (high as i64, sum as i64)
}

/// The sum of a table with the bounds for `n <= 2^61`, `num / den` and at
/// most `30` bits lies below any `c` with `4 * 2^61 * num * 2^60 <
/// (2c - 1)^2 den`.
pub proof fn lemma_table_sum_bound(n: int, num: int, den: int, bits: u32, high: int, sum: int, c: int)
    requires
        jump_bounds_ok(n, num, den, bits, high, sum),
        1 <= n <= 0x2000_0000_0000_0000,
        1 <= num,
        1 <= den,
        bits <= 30,
        c >= 1,
        4 * 0x2000_0000_0000_0000 * num * 0x1000_0000_0000_0000 < (2 * c - 1) * (2 * c - 1) * den,
    ensures
        sum < c,
{
    let p = vstd::arithmetic::power2::pow2(2 * bits as nat) as int;
    if 2 * bits < 60 {
        vstd::arithmetic::power2::lemma_pow2_strictly_increases(2 * bits as nat, 60);
    }
    vstd::arithmetic::power2::lemma2_to64_rest();
    vstd::arithmetic::power2::lemma_pow2_pos(2 * bits as nat);
    assert(p <= 0x1000_0000_0000_0000);
    assert(n * num * p <= 0x2000_0000_0000_0000 * num * 0x1000_0000_0000_0000) by (nonlinear_arith)
        requires
            1 <= n <= 0x2000_0000_0000_0000,
            1 <= num,
            0 < p <= 0x1000_0000_0000_0000,
    ;
    if sum > 0 {
        assert(sum < c) by (nonlinear_arith)
            requires
                (2 * sum - 1) * (2 * sum - 1) * den <= 4 * (n * num * p),
                n * num * p <= 0x2000_0000_0000_0000 * num * 0x1000_0000_0000_0000,
                4 * 0x2000_0000_0000_0000 * num * 0x1000_0000_0000_0000 < (2 * c - 1) * (2 * c - 1) * den,
                sum > 0,
                c >= 1,
                den >= 1,
        {
            if sum >= c {
                assert((2 * sum - 1) * (2 * sum - 1) >= (2 * c - 1) * (2 * c - 1));
                assert((2 * sum - 1) * (2 * sum - 1) * den >= (2 * c - 1) * (2 * c - 1) * den);
            }
        }
    }
}

/// The table completed from the drawn distances `samples`: they and the
/// distance that brings the sum to `expected_sum`, when that one is at
/// least `1` and the distances share no factor but `1`; else none.
pub open spec fn completed_table(samples: Seq<i64>, expected_sum: int) -> Option<Seq<i64>> {
    let last = expected_sum - seq_sum(samples);
    if last >= 1 && seq_gcd(samples.push(last as i64)) == 1 {
        Some(samples.push(last as i64))
    } else {
        None
    }
}

/// A sequence that starts with `1` has `gcd` `1`.
pub proof fn lemma_seq_gcd_leading_one(s: Seq<i64>)
    requires
        s.len() >= 1,
        s[0] == 1,
    ensures
        seq_gcd(s) == 1,
    decreases s.len(),
{
    if s.len() > 1 {
        assert(s.drop_last()[0] == 1);
        lemma_seq_gcd_leading_one(s.drop_last());
        lemma_gcd_one(abs_int(s.last() as int) as nat);
    }
}

/// Completes the drawn distances `samples` into a jump table whose sum is
/// `expected_sum`: exactly `completed_table(samples, expected_sum)`.
pub fn complete_jump_table(samples: Vec<i64>, expected_sum: i64) -> (r: Option<Vec<i64>>)
    requires
        1 <= samples@.len() < 0x4000_0000,
        forall|i: int| 0 <= i < samples@.len() ==> 1 <= #[trigger] samples@[i] <= 0x8_0000_0000,
        0 <= expected_sum <= 0x5a83_0000_0000_0000,
    ensures
        match r {
            Some(t) => completed_table(samples@, expected_sum as int) == Some(t@),
            None => completed_table(samples@, expected_sum as int) is None,
        },
{
    let mut running_sum: i128 = 0;
    let mut k: usize = 0;
    while k < samples.len()
        invariant
            k <= samples@.len() < 0x4000_0000,
            forall|i: int| 0 <= i < samples@.len() ==> 1 <= #[trigger] samples@[i] <= 0x8_0000_0000,
            running_sum == seq_sum(samples@.take(k as int)),
            0 <= running_sum <= k * 0x8_0000_0000,
        decreases samples@.len() - k,
    {
        proof {
            assert(samples@.take(k + 1).drop_last() == samples@.take(k as int));
        }
        running_sum = running_sum + samples[k] as i128;
        k = k + 1;
    }
    proof {
        assert(samples@.take(samples@.len() as int) == samples@);
    }
    let last_wide = expected_sum as i128 - running_sum;
    if last_wide < 1 {
        return None;
    }
    let last_sample = last_wide as i64;
    let mut distances = samples;
    distances.push(last_sample);
    let mut g: i64 = distances[0];
    proof {
        assert(distances@.take(1).drop_last().len() == 0);
        assert(distances@.take(1)[0] == distances@[0]);
    }
    let len = distances.len();
    for i in 1..len
        invariant
            len == distances@.len(),
            forall|j: int| 0 <= j < len ==> 1 <= #[trigger] distances@[j] <= 0x5a83_0000_0000_0000,
            g >= 0,
            g == seq_gcd(distances@.take(i as int)),
    {
        proof {
            assert(distances@.take(i + 1).drop_last() == distances@.take(i as int));
            assert(distances@.take(i + 1).last() == distances@[i as int]);
        }
        g = gcd_i64(g, distances[i]);
    }
    proof {
        assert(distances@.take(len as int) == distances@);
    }
    if g != 1 {
        return None;
    }
    Some(distances)
}

/// Draws `2^bits` jump distances: `2^bits - 1` of them uniformly from
/// `1..high`, then the one that brings the sum to `expected_sum`; the draw is
/// repeated while that last distance would be below `1` or the distances
/// share a factor. `None` if `u64::MAX` draws all fail.
pub fn generate_uniform_jump_table_distances(
    high: i64,
    expected_sum: i64,
    bucket_bits: u32,
    rng: &mut Xoshiro256PlusPlus,
) -> (r: Option<Vec<i64>>)
    requires
        0 < bucket_bits <= 30,
        1 < high <= 0x8_0000_0000,
        0 <= expected_sum <= 0x5a83_0000_0000_0000,
    ensures
        r matches Some(ds) ==> is_uniform_jump_table(ds@, high as int, expected_sum as int, bucket_bits),
        r matches Some(ds) ==> exists|samples: Seq<i64>|
            #[trigger] completed_table(samples, expected_sum as int) == Some(ds@) && samples.len()
                == vstd::arithmetic::power2::pow2(bucket_bits as nat) - 1 && forall|i: int|
                0 <= i < samples.len() ==> 1 <= #[trigger] samples[i] < high,
        expected_sum < vstd::arithmetic::power2::pow2(bucket_bits as nat) ==> r is None,
        high == 2 && expected_sum >= vstd::arithmetic::power2::pow2(bucket_bits as nat) ==> r is Some,
{
    proof {
        vstd::arithmetic::power2::lemma_pow2_strictly_increases(bucket_bits as nat, 32);
        vstd::arithmetic::power2::lemma2_to64();
        vstd::arithmetic::power2::lemma_pow2_pos(bucket_bits as nat);
        vstd::bits::lemma_u64_shl_is_mul(1, bucket_bits as u64);
    }
    let table_size: usize = (1u64 << bucket_bits) as usize;
    let low: i64 = 1;
    let mut attempts: u64 = 0;
    while attempts < u64::MAX
        invariant
            0 < bucket_bits <= 30,
            table_size == vstd::arithmetic::power2::pow2(bucket_bits as nat),
            2 <= table_size <= 0x4000_0000,
            low == 1,
            1 < high <= 0x8_0000_0000,
            0 <= expected_sum <= 0x5a83_0000_0000_0000,
            high == 2 && expected_sum >= table_size ==> attempts == 0,
        decreases u64::MAX - attempts,
    {
        attempts = attempts + 1;
        let mut distances: Vec<i64> = Vec::new();
        let mut running_sum: i128 = 0;
        while distances.len() < table_size - 1
            invariant
                2 <= table_size <= 0x4000_0000,
                low == 1,
                1 < high <= 0x8_0000_0000,
                distances@.len() <= table_size - 1,
                running_sum == seq_sum(distances@),
                0 <= running_sum <= distances@.len() * 0x8_0000_0000,
                forall|i: int| 0 <= i < distances@.len() ==> 1 <= #[trigger] distances@[i] < high,
                forall|i: int| 0 <= i < distances@.len() ==> #[trigger] distances@[i] <= running_sum,
                running_sum >= distances@.len(),
                high == 2 ==> running_sum == distances@.len(),
                high == 2 ==> forall|i: int| 0 <= i < distances@.len() ==> #[trigger] distances@[i] == 1,
            decreases table_size - distances@.len(),
        {
            let distance = random_range_i64(rng, low, high);
            proof {
                assert(distances@.push(distance).drop_last() == distances@);
            }
            running_sum = running_sum + distance as i128;
            distances.push(distance);
        }
        let ghost samples = distances@;
        proof {
            if high == 2 {
                assert(distances@.len() == table_size - 1);
                assert(distances@[0] == 1);
                assert(distances@.push((expected_sum - running_sum) as i64)[0] == 1);
                lemma_seq_gcd_leading_one(distances@.push((expected_sum - running_sum) as i64));
            }
        }
        match complete_jump_table(distances, expected_sum) {
            Some(table) => {
                proof {
                    let ds = table@;
                    assert(ds.drop_last() == samples);
                    assert(seq_sum(ds) == expected_sum);
                    assert forall|i: int| 0 <= i < ds.len() implies 1 <= #[trigger] ds[i]
                        <= expected_sum by {
                        if i < ds.len() - 1 {
                            assert(ds[i] == samples[i]);
                        }
                    }
                }
                assert(completed_table(samples, expected_sum as int) == Some(table@));
                return Some(table);
            },
            None => {
                continue;
            },
        }
    }
    None
}

/// Each jump of the table is a distance in `1..=max` paired with that
/// multiple of `G`.
pub open spec fn jumps_ok<G: KangarooGroup>(jt: Seq<(i64, G)>, max: int) -> bool {
    forall|i: int|
        0 <= i < jt.len() ==> 1 <= #[trigger] jt[i].0 <= max && (group_laws::<G>() ==> jt[i].1
            == G::spec_gen_mul(jt[i].0 as int))
}

/// Pairs each distance `d` (scaled by `factor`) with the point `(factor * d) * G`.
pub fn jump_table<G: KangarooGroup>(distances: &Vec<i64>, factor: i64) -> (r: Vec<(i64, G)>)
    requires
        1 <= factor <= 2,
        forall|i: int| 0 <= i < distances@.len() ==> 1 <= #[trigger] distances@[i] && distances@[i] * factor <= 0x1000_0000_0000_0000,
        G::spec_order() > 0x4000_0000_0000_0000,
    ensures
        r@.len() == distances@.len(),
        forall|i: int| 0 <= i < r@.len() ==> #[trigger] r@[i].0 == distances@[i] * factor,
        jumps_ok(r@, 0x1000_0000_0000_0000),
{
    let mut table: Vec<(i64, G)> = Vec::new();
    for i in 0..distances.len()
        invariant
            1 <= factor <= 2,
            G::spec_order() > 0x4000_0000_0000_0000,
            forall|j: int| 0 <= j < distances@.len() ==> 1 <= #[trigger] distances@[j] && distances@[j] * factor <= 0x1000_0000_0000_0000,
            table@.len() == i,
            forall|j: int| 0 <= j < i ==> #[trigger] table@[j].0 == distances@[j] * factor,
            jumps_ok(table@, 0x1000_0000_0000_0000),
    {
        let d = distances[i];
        assert(1 <= d * factor <= 0x1000_0000_0000_0000) by (nonlinear_arith)
            requires
                1 <= d,
                d * factor <= 0x1000_0000_0000_0000,
                1 <= factor <= 2,
        ;
        let distance = d * factor;
        let element = generator_scalar_mul_i64::<G>(distance);
        table.push((distance, element));
    }
    table
}

} // verus!
