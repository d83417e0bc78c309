use freivald::{Fp, FpConfigMont, GENERATOR, MODULUS};

#[test]
fn modulus_and_generator() {
    assert_eq!(MODULUS, 17);
    assert_eq!(GENERATOR, 3);
    assert_eq!(FpConfigMont::modulus(), 17);
    assert_eq!(FpConfigMont::generator().value(), 3);
}

#[test]
fn new_keeps_canonical_values() {
    for x in 0u64..17 {
        assert_eq!(Fp::new(x).value(), x);
    }
}

#[test]
fn new_reduces_large_values() {
    assert_eq!(Fp::new(17).value(), 0);
    assert_eq!(Fp::new(20).value(), 3);
    assert_eq!(Fp::new(32).value(), 15);
    assert_eq!(Fp::new(1_000_000).value(), 1_000_000 % 17);
    assert_eq!(Fp::new(u64::MAX).value(), 0);
}

#[test]
fn from_i64_reduces_signed_values() {
    assert_eq!(Fp::from_i64(0).value(), 0);
    assert_eq!(Fp::from_i64(5).value(), 5);
    assert_eq!(Fp::from_i64(-1).value(), 16);
    assert_eq!(Fp::from_i64(-17).value(), 0);
    assert_eq!(Fp::from_i64(-20).value(), 14);
    assert_eq!(Fp::from_i64(i64::MAX).value(), 8);
    assert_eq!(Fp::from_i64(i64::MIN).value(), 8);
}

#[test]
fn reducing_twice_is_reducing_once() {
    for x in [0u64, 1, 16, 17, 18, 33, 34, 12345, u64::MAX - 1, u64::MAX] {
        let once = Fp::new(x);
        let twice = Fp::new(once.value());
        assert_eq!(once, twice);
        assert!(once.value() < 17);
    }
}

#[test]
fn identities() {
    assert_eq!(Fp::zero().value(), 0);
    assert_eq!(Fp::one().value(), 1);
    for x in 0u64..17 {
        let e = Fp::new(x);
        assert_eq!(e.add(Fp::zero()), e);
        assert_eq!(e.mul(Fp::one()), e);
        assert_eq!(e.mul(Fp::zero()), Fp::zero());
    }
}

#[test]
fn add_exact_values() {
    assert_eq!(Fp::new(9).add(Fp::new(12)).value(), 4);
    assert_eq!(Fp::new(16).add(Fp::new(16)).value(), 15);
    assert_eq!(Fp::new(16).add(Fp::new(1)).value(), 0);
    assert_eq!(Fp::new(2).add(Fp::new(3)).value(), 5);
}

#[test]
fn sub_exact_values() {
    assert_eq!(Fp::new(3).sub(Fp::new(5)).value(), 15);
    assert_eq!(Fp::new(5).sub(Fp::new(3)).value(), 2);
    assert_eq!(Fp::new(0).sub(Fp::new(16)).value(), 1);
    assert_eq!(Fp::new(7).sub(Fp::new(7)).value(), 0);
}

#[test]
fn neg_exact_values() {
    assert_eq!(Fp::new(5).neg().value(), 12);
    assert_eq!(Fp::new(0).neg().value(), 0);
    assert_eq!(Fp::new(16).neg().value(), 1);
}

#[test]
fn mul_exact_values() {
    assert_eq!(Fp::new(7).mul(Fp::new(8)).value(), 5);
    assert_eq!(Fp::new(16).mul(Fp::new(16)).value(), 1);
    assert_eq!(Fp::new(4).mul(Fp::new(4)).value(), 16);
    assert_eq!(Fp::new(3).mul(Fp::new(6)).value(), 1);
}

#[test]
fn arithmetic_agrees_with_integers() {
    for x in 0u64..17 {
        for y in 0u64..17 {
            let a = Fp::new(x);
            let b = Fp::new(y);
            assert_eq!(a.add(b).value(), (x + y) % 17);
            assert_eq!(a.mul(b).value(), (x * y) % 17);
            assert_eq!(a.sub(b).value(), (x + 17 - y) % 17);
            assert_eq!(a.sub(b).add(b), a);
        }
    }
}

#[test]
fn equality_is_an_equivalence() {
    let a = Fp::new(3);
    let b = Fp::new(20);
    let c = Fp::new(37);
    let d = Fp::new(4);
    assert!(a.equals(&a));
    assert!(a.equals(&b) && b.equals(&a));
    assert!(a.equals(&b) && b.equals(&c) && a.equals(&c));
    assert!(!a.equals(&d) && !d.equals(&a));
    assert_eq!(a, b);
    assert_ne!(a, d);
}

#[test]
fn generator_has_full_order() {
    let g = FpConfigMont::generator();
    let mut cur = Fp::one();
    let mut seen = vec![false; 17];
    for k in 1..=16 {
        cur = cur.mul(g);
        assert!(!seen[cur.value() as usize]);
        seen[cur.value() as usize] = true;
        assert_eq!(cur.value() == 1, k == 16);
    }
    assert!(!seen[0]);
}
