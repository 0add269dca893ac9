use zkcomp::z655::{ext_euc_alg, Z655};

#[test]
fn ring_arithmetic() {
    assert_eq!(Z655::from(3).add(Z655::from(4)).inner, 7);
    assert_eq!(Z655::from(65534).add(Z655::from(2)).inner, 1);
    assert_eq!(Z655::from(5).neg().inner, 65530);
    assert_eq!(Z655::from(0).neg().inner, 65535);
    assert_eq!(Z655::from(7).sub(Z655::from(3)).inner, 4);
    assert_eq!(Z655::from(3).sub(Z655::from(7)).inner, 65531);
    assert_eq!(Z655::from(300).mul(Z655::from(300)).inner, (300 * 300 % 65535) as u16);
    assert_eq!(Z655::zero().inner, 0);
    assert_eq!(Z655::one().inner, 1);
    assert_eq!(Z655::from(42).into(), 42);
}

#[test]
fn division_by_units_inverts_multiplication() {
    // 65535 is odd, so 2 is a unit.
    assert_eq!(Z655::from(10).div(Z655::from(2)).inner, 5);
    let inv = Z655::from(2).mul_inv();
    assert_eq!((inv.inner as u32 * 2) % 65535, 1);
    // 7 divides none of 3*5*17*257, so it is a unit too.
    let q = Z655::from(21).div(Z655::from(7));
    assert_eq!((q.inner as u32 * 7) % 65535, 21);
}

#[test]
fn extended_euclid_bezout() {
    let (g, s, t) = ext_euc_alg(240, 65535);
    assert_eq!(g, 15);
    assert_eq!(s * 240 + t * 65535, 15);
    let (g1, s1, t1) = ext_euc_alg(2, 65535);
    assert_eq!(g1, 1);
    assert_eq!(s1 * 2 + t1 * 65535, 1);
    let (g0, s0, t0) = ext_euc_alg(0, 65535);
    assert_eq!(g0, 65535);
    assert_eq!(s0 * 0 + t0 * 65535, 65535);
}

#[test]
fn toy_cipher() {
    assert_eq!(Z655::from(0).encrypt().inner, 1);
    assert_eq!(Z655::from(1).encrypt().inner, 69);
    assert_eq!(Z655::from(2).encrypt().inner, 4761);
    assert_eq!(Z655::from(3).encrypt().inner, (4761u32 * 69 % 65535) as u16);
}

#[test]
fn group_hooks_are_products() {
    assert_eq!(Z655::from(2).encrypt_g1().inner, 138);
    assert_eq!(Z655::from(2).encrypt_g2().inner, 138);
    assert_eq!(Z655::from(3).exp_encrypted_g1(Z655::from(138)).inner, 414);
    assert_eq!(Z655::from(3).exp_encrypted_g2(Z655::from(138)).inner, 414);
    assert_eq!(Z655::pairing(Z655::from(100), Z655::from(1000)).inner, (100_000u32 % 65535) as u16);
    assert!(Z655::zero().is_identity());
    assert!(!Z655::one().is_identity());
    assert!(Z655::zero().detect_root());
    assert!(!Z655::from(9).detect_root());
    assert!(Z655::from(9).valid());
}

#[test]
fn random_scalars_are_in_range() {
    for _ in 0..32 {
        let r = Z655::random();
        assert!(r.inner < 65535);
        let e = Z655::random_elem();
        assert!(e.inner >= 1 && e.inner < 65535);
    }
}

#[test]
fn vector_sum_folds_left() {
    let v = vec![Z655::from(1), Z655::from(2), Z655::from(3)];
    assert_eq!(Z655::sum(&v).inner, 6);
    let w = vec![Z655::from(65000), Z655::from(65000)];
    assert_eq!(Z655::sum(&w).inner, ((65000u32 + 65000) % 65535) as u16);
    let empty: Vec<Z655> = vec![];
    assert_eq!(Z655::sum(&empty).inner, 0);
}
