use kangaroo_lab_verified::group::ectoy::{ECToyField, ECToyGroup, ECToyScalar};

#[test]
fn curve_parameters_match_claimed_order() {
    assert_eq!(ECToyField::MODULUS, (1u64 << 63) - 4321);
    assert_eq!(ECToyScalar::MODULUS, (1u64 << 63) - 0x5634b119);
    assert!(ECToyField::from_u64(3).sqrt().is_none());
    assert!(ECToyGroup::generator().is_valid());
    assert!(ECToyGroup::generator().scalar_mul_u64(ECToyScalar::MODULUS).is_identity());
    assert!(!ECToyGroup::generator().scalar_mul_u64(ECToyScalar::MODULUS - 1).is_identity());
}

#[test]
fn group_law_smoke_checks() {
    let g = ECToyGroup::generator();
    let two_g = g.double();
    let three_g = two_g.add(g);

    assert_eq!(g.add(ECToyGroup::identity()), g);
    assert_eq!(g.add(g.neg()), ECToyGroup::identity());
    assert_eq!(g.add(g), two_g);
    assert_eq!(g.scalar_mul_u64(3), three_g);
    assert_eq!(three_g.sub(two_g), g);
    assert!(three_g.is_valid());
}

#[test]
fn encoding_roundtrip() {
    let point = ECToyGroup::generator().scalar_mul_u64(1234567);
    let repr = point.to_bytes();
    let decoded = ECToyGroup::from_bytes(&repr).unwrap();

    assert_eq!(decoded, point);
    assert!(ECToyGroup::from_bytes(&[0u8; 16]).is_some());
}

#[test]
fn point_decoding_refuses_bad_encodings() {
    // x = 1, y = 3 is not on y^2 = x^3 + 3
    let mut bytes = [0u8; 16];
    bytes[0] = 1;
    bytes[8] = 3;
    assert!(ECToyGroup::from_bytes(&bytes).is_none());
    // x = 1, y = 2 is the generator
    bytes[8] = 2;
    assert_eq!(ECToyGroup::from_bytes(&bytes), Some(ECToyGroup::generator()));
    // a coordinate equal to p is not reduced
    let p = ECToyField::MODULUS.to_le_bytes();
    let mut unreduced = [0u8; 16];
    unreduced[..8].copy_from_slice(&p);
    assert!(ECToyGroup::from_bytes(&unreduced).is_none());
}

#[test]
fn field_encoding() {
    let x = ECToyField::from_u64(0x0102_0304_0506_0708);
    assert_eq!(x.to_repr(), [8, 7, 6, 5, 4, 3, 2, 1]);
    assert_eq!(ECToyField::from_repr([8, 7, 6, 5, 4, 3, 2, 1]), Some(x));
    assert_eq!(ECToyField::from_repr(ECToyField::MODULUS.to_le_bytes()), None);
    assert_eq!(
        ECToyField::from_repr((ECToyField::MODULUS - 1).to_le_bytes()),
        Some(ECToyField::from_u64(ECToyField::MODULUS - 1))
    );
    assert_eq!(ECToyScalar::from_u128(5), ECToyScalar::from_u64(5));
    assert_eq!(ECToyScalar::from_repr(ECToyScalar::MODULUS.to_le_bytes()), None);
}
