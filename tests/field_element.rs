use bitcoin_chapter1::{FieldElement, FieldError};

const BIG_PRIME: i64 = 9_223_372_036_854_775_783;

#[test]
fn field_elements_can_be_created() {
    let field_element = FieldElement::new(18, 17);

    assert_eq!(FieldElement::new(1, 17), field_element);
}

#[test]
fn field_elements_can_be_added() {
    let x = FieldElement::new(2, 3);
    let y = FieldElement::new(1, 3);

    assert_eq!(Ok(FieldElement::new(0, 3)), x + y)
}

#[test]
fn negative_field_elements_can_be_added() {
    let x = FieldElement::new(-2, 3);
    let y = FieldElement::new(1, 3);

    assert_eq!(Ok(FieldElement::new(2, 3)), x + y)
}

#[test]
fn field_elements_can_be_substracted() {
    let x = FieldElement::new(2, 5);
    let y = FieldElement::new(3, 5);

    assert_eq!(Ok(FieldElement::new(4, 5)), x - y)
}

#[test]
fn field_elements_can_be_multiplied() {
    let x = FieldElement::new(74, 5);
    let y = FieldElement::new(2, 5);

    assert_eq!(Ok(FieldElement::new(3, 5)), x * y)
}

#[test]
fn negative_field_elements_can_be_multiplied() {
    let x = FieldElement::new(74, 5);
    let y = FieldElement::new(-2, 5);

    assert_eq!(Ok(FieldElement::new(2, 5)), x * y)
}

#[test]
fn field_elements_have_powers() {
    let x = FieldElement::new(3, 13);

    assert_eq!(FieldElement::new(1, 13), x.pow(3))
}

#[test]
fn pow_0_works() {
    let x = FieldElement::new(3, 13);

    assert_eq!(FieldElement::new(1, 13), x.pow(0))
}

#[test]
fn field_elements_can_be_divided() {
    let x = FieldElement::new(2, 19);
    let y = FieldElement::new(7, 19);

    assert_eq!(Ok(FieldElement::new(3, 19)), x / y)
}

#[test]
fn construction_keeps_the_canonical_residue() {
    assert_eq!(FieldElement::new(-2, 3), FieldElement::new(1, 3));
    let e = FieldElement::new(-2, 3);
    assert_eq!(e.prime, 3);
    assert_eq!(e.num, 1);
    let low = FieldElement::new(i64::MIN, 7);
    assert_eq!(low.num, 6);
    let high = FieldElement::new(i64::MAX, 7);
    assert_eq!(high.num, 0);
    assert_eq!(FieldElement::new(-17, 17).num, 0);
}

#[test]
fn cross_field_addition_is_a_mismatch() {
    let x = FieldElement::new(2, 4);
    let y = FieldElement::new(1, 3);

    assert_eq!(Err(FieldError::FieldMismatch), x + y);
}

#[test]
fn every_operator_reports_a_field_mismatch() {
    let x = FieldElement::new(2, 5);
    let y = FieldElement::new(2, 7);

    assert_eq!(Err(FieldError::FieldMismatch), x - y);
    assert_eq!(Err(FieldError::FieldMismatch), x * y);
    assert_eq!(Err(FieldError::FieldMismatch), x / y);
    let zero = FieldElement::new(0, 7);
    assert_eq!(Err(FieldError::FieldMismatch), x / zero);
}

#[test]
fn division_by_zero_is_reported() {
    let x = FieldElement::new(5, 19);
    let zero = FieldElement::new(19, 19);

    assert_eq!(Err(FieldError::DivisionByZero), x / zero);
}

#[test]
fn zero_is_the_additive_identity() {
    let x = FieldElement::new(11, 13);

    assert_eq!(Ok(x), FieldElement::new(0, 13) + x);
}

#[test]
fn adding_the_negation_gives_zero() {
    let x = FieldElement::new(11, 13);
    let negation = (FieldElement::new(0, 13) - x).unwrap();

    assert_eq!(negation.num, 2);
    assert_eq!(Ok(FieldElement::new(0, 13)), x + negation);
}

#[test]
fn every_non_zero_element_has_an_inverse() {
    for value in 1..31 {
        let y = FieldElement::new(value, 31);
        let inverse = (FieldElement::new(1, 31) / y).unwrap();
        assert_eq!(Ok(FieldElement::new(1, 31)), y * inverse);
    }
}

#[test]
fn pow_0_is_one_for_non_zero_elements() {
    for value in 1..7 {
        assert_eq!(FieldElement::new(1, 7), FieldElement::new(value, 7).pow(0));
    }
}

#[test]
fn large_prime_arithmetic_does_not_overflow() {
    let x = FieldElement::new(BIG_PRIME - 1, BIG_PRIME);
    let y = FieldElement::new(BIG_PRIME - 2, BIG_PRIME);

    assert_eq!(Ok(FieldElement::new(BIG_PRIME - 3, BIG_PRIME)), x + y);
    assert_eq!(Ok(FieldElement::new(BIG_PRIME - 1, BIG_PRIME)), y - x);
    assert_eq!(Ok(FieldElement::new(1, BIG_PRIME)), x - y);
    assert_eq!(Ok(FieldElement::new(2, BIG_PRIME)), x * y);
    assert_eq!(FieldElement::new(1, BIG_PRIME), x.pow(2));
    assert_eq!(FieldElement::new(BIG_PRIME - 1, BIG_PRIME), x.pow(u32::MAX));

    let z = FieldElement::new(123_456_789, BIG_PRIME);
    let inverse = (FieldElement::new(1, BIG_PRIME) / z).unwrap();
    assert_eq!(Ok(FieldElement::new(1, BIG_PRIME)), z * inverse);
}

#[test]
fn powers_reduce_at_each_step() {
    let x = FieldElement::new(2, 1_000_003);

    assert_eq!(FieldElement::new(1024, 1_000_003), x.pow(10));
    assert_eq!(FieldElement::new(1, 1_000_003), x.pow(1_000_002));
    assert_eq!(FieldElement::new(3, 5), FieldElement::new(2, 5).pow(3));
}
