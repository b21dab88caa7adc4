use kangaroo_lab_verified::group::ectoy::ECToyGroup;
use kangaroo_lab_verified::group::toy::{ToyGroup, ToyScalar};
use kangaroo_lab_verified::group::{generator_scalar_mul_i64, scalar_mul_i64, KangarooGroup};

const Q: u64 = (1u64 << 63) - 25;

#[test]
fn toy_scalar_arithmetic() {
    let a = ToyScalar::from_u64(Q - 1);
    let b = ToyScalar::from_u64(5);
    assert_eq!(a.add(b), ToyScalar::from_u64(4));
    assert_eq!(b.sub(a), ToyScalar::from_u64(6));
    assert_eq!(a.mul(a), ToyScalar::one());
    assert_eq!(b.neg(), ToyScalar::from_u64(Q - 5));
    assert_eq!(ToyScalar::zero().neg(), ToyScalar::zero());
    assert_eq!(b.square(), ToyScalar::from_u64(25));
    assert_eq!(b.double(), ToyScalar::from_u64(10));
    assert_eq!(ToyScalar::from_u64_reduce(u64::MAX), ToyScalar::from_u64(u64::MAX - 2 * Q));
    assert!(b.is_odd());
    assert!(!ToyScalar::from_u64(4).is_odd());
    assert!(ToyScalar::zero().is_zero());
}

#[test]
fn toy_scalar_powers_and_inverses() {
    let b = ToyScalar::from_u64(5);
    assert_eq!(b.pow_u64(3), ToyScalar::from_u64(125));
    assert_eq!(b.pow_u64(0), ToyScalar::one());
    let inv = b.inv();
    assert_eq!(inv.mul(b), ToyScalar::one());
    assert_eq!(b.pow_i64(-1), inv);
    assert_eq!(b.pow_i64(2), ToyScalar::from_u64(25));
    assert_eq!(b.invert(), Some(inv));
    assert_eq!(ToyScalar::zero().invert(), None);
    let root = ToyScalar::from_u64(16).sqrt().expect("16 is a square");
    assert_eq!(root.square(), ToyScalar::from_u64(16));
}

#[test]
fn toy_scalar_encoding() {
    let x = ToyScalar::from_u64(0x1122_3344_5566_7788);
    assert_eq!(x.to_repr(), [0x88, 0x77, 0x66, 0x55, 0x44, 0x33, 0x22, 0x11]);
    assert_eq!(ToyScalar::from_repr(x.to_repr()), Some(x));
    assert_eq!(ToyScalar::from_repr(Q.to_le_bytes()), None);
    assert_eq!(ToyScalar::from_repr(u64::MAX.to_le_bytes()), None);
    assert_eq!(ToyScalar::from_u128(7), ToyScalar::from_u64(7));
}

#[test]
fn toy_group_operations() {
    let g = ToyGroup::generator_scalar_mul_u64(1);
    let three = ToyGroup::generator_scalar_mul_u64(3);
    assert_eq!(g.add(g).add(g), three);
    assert_eq!(three.sub(g), ToyGroup::generator_scalar_mul_u64(2));
    assert_eq!(g.neg(), ToyGroup::generator_scalar_mul_u64(Q - 1));
    assert_eq!(g.double(), ToyGroup::generator_scalar_mul_u64(2));
    assert_eq!(three.scalar_mul_u64(4), ToyGroup::generator_scalar_mul_u64(12));
    assert_eq!(three.scalar_mul_i64(-4), ToyGroup::generator_scalar_mul_u64(Q - 12));
    assert_eq!(ToyGroup::generator_scalar_mul_i64(-1), g.neg());
    assert_eq!(three.mul(ToyScalar::from_u64(2)), ToyGroup::generator_scalar_mul_u64(6));
    assert!(ToyGroup::zero().is_identity());
    assert!(!g.is_identity());
    assert_eq!(ToyGroup::mul_by_generator(&ToyScalar::from_u64(9)), ToyGroup::generator_scalar_mul_u64(9));
}

#[test]
fn toy_group_encoding() {
    let e = ToyGroup::generator_scalar_mul_u64(258);
    assert_eq!(e.to_bytes(), [2, 1, 0, 0, 0, 0, 0, 0]);
    assert_eq!(ToyGroup::from_bytes(&e.to_bytes()), Some(e));
    assert_eq!(ToyGroup::from_bytes(&Q.to_le_bytes()), None);
}

#[test]
fn toy_group_maps() {
    // SplitMix64 finaliser of 1 xor each domain separator
    let g = ToyGroup::generator_scalar_mul_u64(1);
    assert_eq!(g.footprint(), 0x5deea25287c08a56);
    assert_eq!(g.bucket(8), 11);
    assert!(!g.is_distinguished(4));
    assert!(!g.is_negation_map_representative());
    assert!(g.neg().is_negation_map_representative());
    let e = ToyGroup::generator_scalar_mul_u64(12345);
    assert_eq!(e.bucket(8), 224);
    assert_eq!(e.footprint(), 0x9acb0793cfda439a);
}

#[test]
fn negation_map_picks_one_of_each_pair() {
    for k in 1u64..2000 {
        let e = ToyGroup::generator_scalar_mul_u64(k);
        assert_ne!(e.is_negation_map_representative(), e.neg().is_negation_map_representative());
        let p = ECToyGroup::generator().scalar_mul_u64(k);
        assert_ne!(p.is_negation_map_representative(), p.neg().is_negation_map_representative());
    }
}

#[test]
fn signed_helpers() {
    let g = ToyGroup::generator_scalar_mul_u64(1);
    assert_eq!(generator_scalar_mul_i64::<ToyGroup>(-7), ToyGroup::generator_scalar_mul_u64(Q - 7));
    assert_eq!(scalar_mul_i64(g.double(), -3), ToyGroup::generator_scalar_mul_u64(Q - 6));
    let p = ECToyGroup::generator();
    assert_eq!(scalar_mul_i64(p, -2), p.double().neg());
    assert_eq!(generator_scalar_mul_i64::<ECToyGroup>(0), ECToyGroup::identity());
}

#[test]
fn curve_bucket_uses_the_byte_swap() {
    // x = 1: (1 ^ 0) byte-swapped is 1 << 56, whose top byte is 1
    assert_eq!(ECToyGroup::generator().bucket(8), 1);
    assert_eq!(ECToyGroup::generator().bucket(16), 0x100);
    assert!(ECToyGroup::identity().is_distinguished(8));
    assert!(!ECToyGroup::generator().is_distinguished(1));
}
