use cvar_flatten::FieldElement;

#[test]
fn zero_and_one_are_the_identities() {
    assert_eq!(FieldElement::zero(), FieldElement(0));
    assert_eq!(FieldElement::one(), FieldElement(1));
    let a = FieldElement(0xdead_beef_0123_4567);
    assert_eq!(a + FieldElement::zero(), a);
    assert_eq!(FieldElement::zero() + a, a);
    assert_eq!(a * FieldElement::one(), a);
    assert_eq!(FieldElement::one() * a, a);
}

#[test]
fn is_zero_tells_zero_from_the_rest() {
    assert!(FieldElement::zero().is_zero());
    assert!(FieldElement(0).is_zero());
    assert!(!FieldElement::one().is_zero());
    assert!(!FieldElement(u64::MAX).is_zero());
}

#[test]
fn addition_of_small_values_is_exact() {
    assert_eq!(FieldElement(5) + FieldElement(7), FieldElement(12));
}

#[test]
fn addition_wraps_at_the_modulus() {
    assert_eq!(FieldElement(u64::MAX) + FieldElement(1), FieldElement(0));
    assert_eq!(FieldElement(u64::MAX) + FieldElement(u64::MAX), FieldElement(u64::MAX - 1));
    assert_eq!(
        FieldElement(0x8000_0000_0000_0000) + FieldElement(0x8000_0000_0000_0001),
        FieldElement(1)
    );
}

#[test]
fn multiplication_of_small_values_is_exact() {
    assert_eq!(FieldElement(3) * FieldElement(4), FieldElement(12));
    assert_eq!(FieldElement(5) * FieldElement(3), FieldElement(15));
}

#[test]
fn multiplication_wraps_at_the_modulus() {
    assert_eq!(FieldElement(0x1_0000_0000) * FieldElement(0x1_0000_0000), FieldElement(0));
    assert_eq!(FieldElement(u64::MAX) * FieldElement(u64::MAX), FieldElement(1));
    assert_eq!(FieldElement(u64::MAX) * FieldElement(2), FieldElement(u64::MAX - 1));
}

#[test]
fn multiplication_by_zero_is_zero() {
    assert_eq!(FieldElement(0x1234_5678_9abc_def0) * FieldElement::zero(), FieldElement(0));
    assert_eq!(FieldElement::zero() * FieldElement(17), FieldElement(0));
}

#[test]
fn negation_gives_the_additive_inverse() {
    assert_eq!(-FieldElement(1), FieldElement(u64::MAX));
    assert_eq!(-FieldElement(u64::MAX), FieldElement(1));
    assert_eq!(-FieldElement(12), FieldElement(u64::MAX - 11));
    let a = FieldElement(0x0123_4567_89ab_cdef);
    assert_eq!(a + (-a), FieldElement::zero());
}

#[test]
fn negation_of_zero_is_zero() {
    assert_eq!(-FieldElement::zero(), FieldElement::zero());
}

#[test]
fn ring_laws_hold_on_wrapping_values() {
    let a = FieldElement(0xffff_ffff_ffff_fff1);
    let b = FieldElement(0x8000_0000_0000_0003);
    let c = FieldElement(0x0000_0001_0000_0007);
    assert_eq!(a + b, b + a);
    assert_eq!(a * b, b * a);
    assert_eq!((a + b) + c, a + (b + c));
    assert_eq!((a * b) * c, a * (b * c));
    assert_eq!(a * (b + c), a * b + a * c);
}

#[test]
fn scalars_are_equal_when_their_residues_are() {
    assert_eq!(FieldElement(42), FieldElement(42));
    assert_ne!(FieldElement(42), FieldElement(43));
    let a = FieldElement(9);
    let b = a;
    assert_eq!(a, b.clone());
}
