use ecfft::bn256::Base;
use ecfft::scalar::{Scalar, TwoAdic};
use halo2curves::bn256::Fq;
use pasta_curves::Fp;

#[test]
fn pallas_identities() {
    let x = Fp::from(0x1234_5678_9abc_def0);
    assert!(<Fp as Scalar>::zero().equals(&Fp::from(0)));
    assert!(<Fp as Scalar>::one().equals(&Fp::from(1)));
    assert!(!<Fp as Scalar>::one().equals(&<Fp as Scalar>::zero()));
    assert_eq!(Scalar::add(&x, &<Fp as Scalar>::zero()), x);
    assert_eq!(Scalar::mul(&x, &<Fp as Scalar>::one()), x);
    assert_eq!(Scalar::mul(&x, &<Fp as Scalar>::zero()), Fp::from(0));
}

#[test]
fn pallas_arithmetic() {
    let (a, b) = (Fp::from(1_000_000_007), Fp::from(998_244_353));
    assert_eq!(Scalar::add(&a, &b), Fp::from(1_998_244_360));
    assert_eq!(Scalar::sub(&a, &b), Fp::from(1_755_654));
    assert_eq!(Scalar::mul(&a, &b), Fp::from(998_244_359_987_710_471));
    // below zero, the modulus is added: b - a = -(a - b)
    assert_eq!(Scalar::sub(&b, &a), -Fp::from(1_755_654));
    assert_eq!(
        Scalar::add(&Scalar::sub(&b, &a), &Fp::from(1_755_654)),
        Fp::from(0)
    );
    assert!(Scalar::mul(&a, &b).equals(&Scalar::mul(&b, &a)));
    assert!(!a.equals(&b));
}

#[test]
fn pallas_powers() {
    let x = Fp::from(3);
    assert_eq!(<Fp as TwoAdic>::pow_vartime(&x, 0), Fp::from(1));
    assert_eq!(<Fp as TwoAdic>::pow_vartime(&x, 1), x);
    assert_eq!(<Fp as TwoAdic>::pow_vartime(&x, 5), Fp::from(243));
    assert_eq!(
        <Fp as TwoAdic>::pow_vartime(&Fp::from(2), 63),
        Fp::from(1 << 63)
    );
}

#[test]
fn pallas_root_of_unity_has_order_two_to_the_s() {
    assert_eq!(<Fp as TwoAdic>::s(), 32);
    let root = <Fp as TwoAdic>::root_of_unity();
    let minus_one = <Fp as TwoAdic>::pow_vartime(&root, 1 << 31);
    assert_eq!(minus_one, -Fp::from(1));
    assert_eq!(<Fp as TwoAdic>::pow_vartime(&root, 1 << 32), Fp::from(1));
    assert_ne!(<Fp as TwoAdic>::pow_vartime(&root, 1 << 30), Fp::from(1));
    // the limbs of the root, least significant first
    let limbs: [u64; 4] = [
        0xbdad6fabd87ea32f,
        0xea322bf2b7bb7584,
        0x362120830561f81a,
        0x2bce74deac30ebda,
    ];
    let two_to_64 = Fp::from(1 << 32) * Fp::from(1 << 32);
    let mut value = Fp::from(0);
    for limb in limbs.iter().rev() {
        value = value * two_to_64 + Fp::from(*limb);
    }
    assert_eq!(root, value);
}

#[test]
fn pallas_modulus() {
    // p - 1 is the value with these limbs; one more is zero
    let limbs: [u64; 4] = [0x992d30ed00000000, 0x224698fc094cf91b, 0, 0x4000000000000000];
    let two_to_64 = Fp::from(1 << 32) * Fp::from(1 << 32);
    let mut value = Fp::from(0);
    for limb in limbs.iter().rev() {
        value = value * two_to_64 + Fp::from(*limb);
    }
    assert_eq!(value, -Fp::from(1));
    assert_eq!(Scalar::add(&value, &Fp::from(1)), Fp::from(0));
}

/// The library's element for one of `halo2curves`.
fn lib(x: Fq) -> Base {
    Base::from_bytes(&x.to_bytes()).unwrap()
}

#[test]
fn bn256_identities() {
    let x = lib(Fq::from(0x1234_5678_9abc_def0));
    assert!(<Base as Scalar>::zero().equals(&lib(Fq::from(0))));
    assert!(<Base as Scalar>::one().equals(&lib(Fq::from(1))));
    assert!(!<Base as Scalar>::one().equals(&<Base as Scalar>::zero()));
    assert_eq!(Scalar::add(&x, &<Base as Scalar>::zero()), x);
    assert_eq!(Scalar::mul(&x, &<Base as Scalar>::one()), x);
    assert_ne!(Scalar::add(&x, &<Base as Scalar>::one()), x);
}

#[test]
fn bn256_arithmetic() {
    let (a, b) = (lib(Fq::from(1_000_000_007)), lib(Fq::from(998_244_353)));
    assert_eq!(Scalar::add(&a, &b), lib(Fq::from(1_998_244_360)));
    assert_eq!(Scalar::sub(&a, &b), lib(Fq::from(1_755_654)));
    assert_eq!(Scalar::mul(&a, &b), lib(Fq::from(998_244_359_987_710_471)));
    assert_eq!(Scalar::sub(&b, &a), lib(-Fq::from(1_755_654)));
    assert!(!a.equals(&b));
    assert!(a != b);
    assert!(a == lib(Fq::from(1_000_000_007)));
}

#[test]
fn bn256_bytes() {
    let mut bytes = [0u8; 32];
    bytes[0] = 0x34;
    bytes[1] = 0x12;
    let x = Base::from_bytes(&bytes).unwrap();
    assert_eq!(x, lib(Fq::from(0x1234)));
    assert_eq!(x.to_bytes(), bytes);
    assert_eq!(<Base as Scalar>::one().to_bytes()[0], 1);
    assert_eq!(<Base as Scalar>::one().to_bytes()[1..], [0u8; 31]);
    // the modulus itself, and what is above it, stand for no element
    let modulus: [u64; 4] = [
        0x3c208c16d87cfd47,
        0x97816a916871ca8d,
        0xb85045b68181585d,
        0x30644e72e131a029,
    ];
    let mut q = [0u8; 32];
    for (i, limb) in modulus.iter().enumerate() {
        q[8 * i..8 * i + 8].copy_from_slice(&limb.to_le_bytes());
    }
    assert!(Base::from_bytes(&q).is_none());
    assert!(Base::from_bytes(&[0xff; 32]).is_none());
    // one below the modulus is -1
    q[0] -= 1;
    let minus_one = Base::from_bytes(&q).unwrap();
    assert_eq!(minus_one, lib(-Fq::from(1)));
    assert_eq!(
        Scalar::add(&minus_one, &<Base as Scalar>::one()),
        <Base as Scalar>::zero()
    );
    assert_eq!(Scalar::mul(&minus_one, &minus_one), <Base as Scalar>::one());
}
