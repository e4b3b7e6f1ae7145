use tip5::BFieldElement;

const P: u64 = 0xffff_ffff_0000_0001;

fn samples() -> Vec<BFieldElement> {
    [0u64, 1, 2, 7, 255, 1 << 32, P - 1, P - 2, 12_045_832_659_793_544_965, 0xdead_beef]
        .iter()
        .map(|&v| BFieldElement::new(v))
        .collect()
}

#[test]
fn round_trip_values() {
    for v in [0u64, 1, 2, 0xffff_ffff, 1 << 32, P - 1, 9_712_864_734_344_745_984] {
        assert_eq!(BFieldElement::new(v).value(), v);
    }
}

#[test]
fn new_reduces_modulo_p() {
    assert_eq!(BFieldElement::new(P).value(), 0);
    assert_eq!(BFieldElement::new(P + 5), BFieldElement::new(5));
    assert_eq!(BFieldElement::new(u64::MAX).value(), u64::MAX - P);
}

#[test]
fn field_axioms_on_samples() {
    let s = samples();
    let zero = BFieldElement::zero();
    let one = BFieldElement::one();
    for &a in &s {
        assert_eq!(a + zero, a);
        assert_eq!(a * one, a);
        assert_eq!(a + (-a), zero);
        for &b in &s {
            assert_eq!(a + b, b + a);
            assert_eq!(a * b, b * a);
            for &c in &s {
                assert_eq!((a + b) + c, a + (b + c));
                assert_eq!((a * b) * c, a * (b * c));
                assert_eq!(a * (b + c), a * b + a * c);
            }
        }
    }
}

#[test]
fn arithmetic_exact_values() {
    let a = BFieldElement::new(P - 1);
    let b = BFieldElement::new(5);
    assert_eq!((a + b).value(), 4);
    assert_eq!((b - a).value(), 6);
    assert_eq!((a * a).value(), 1);
    assert_eq!((BFieldElement::new(1 << 32) * BFieldElement::new(1 << 32)).value(), (1 << 32) - 1);
    assert_eq!((-b).value(), P - 5);
    assert_eq!((-BFieldElement::zero()).value(), 0);
}

#[test]
fn assign_operators() {
    let mut x = BFieldElement::new(10);
    x += BFieldElement::new(P - 3);
    assert_eq!(x.value(), 7);
    x -= BFieldElement::new(9);
    assert_eq!(x.value(), P - 2);
    x *= BFieldElement::new(3);
    assert_eq!(x.value(), P - 6);
}

#[test]
fn inverse_law() {
    let one = BFieldElement::one();
    for a in samples() {
        if a.is_zero() {
            continue;
        }
        let inv = a.inverse();
        assert_eq!(a * inv, one);
        assert_eq!(inv.inverse(), a);
    }
    assert_eq!(BFieldElement::new(2).inverse().value(), (P + 1) / 2);
}

#[test]
fn division_is_multiplication_by_inverse() {
    let s = samples();
    for &a in &s {
        for &b in &s {
            if b.is_zero() {
                continue;
            }
            assert_eq!(a / b, a * b.inverse());
        }
    }
    assert_eq!((BFieldElement::new(12) / BFieldElement::new(4)).value(), 3);
}

#[test]
fn raw_word_and_bytes() {
    let e = BFieldElement::from_raw_u64(0x0102_0304_0506_0708);
    assert_eq!(e.raw_u64(), 0x0102_0304_0506_0708);
    assert_eq!(e.raw_bytes(), [8, 7, 6, 5, 4, 3, 2, 1]);
    assert_eq!(BFieldElement::from_raw_bytes(&[8, 7, 6, 5, 4, 3, 2, 1]), e);
    assert_eq!(BFieldElement::one().raw_u64(), 0xffff_ffff);
    assert!(BFieldElement::one().is_one());
    assert!(BFieldElement::zero().is_zero());
    assert!(!BFieldElement::one().is_zero());
}

#[test]
fn montyred_of_small_and_large_inputs() {
    assert_eq!(BFieldElement::montyred(0), 0);
    // 2^64 reduces to 1
    assert_eq!(BFieldElement::montyred(1u128 << 64), 1);
    // (p - 1) * 2^64 reduces to p - 1
    assert_eq!(BFieldElement::montyred(((P - 1) as u128) << 64), P - 1);
    // p * 2^64 is past the canonical range: the word is p, congruent to 0
    assert_eq!(BFieldElement::montyred((P as u128) << 64), P);
}
