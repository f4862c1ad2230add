use bitcoin_chapter1::{FieldElement2, Z2, Z5};

#[test]
fn can_add_z2_values() {
    let x: Z2 = FieldElement2(1);
    let y: Z2 = FieldElement2(1);
    assert_eq!(FieldElement2(0), x + y)
}

#[test]
fn can_multiply_z2_values() {
    let x: Z2 = FieldElement2(1);
    let y: Z2 = FieldElement2(1);
    assert_eq!(FieldElement2(1), x * y)
}

#[test]
fn z5_subtraction_stays_canonical() {
    let x: Z5 = FieldElement2(2);
    let y: Z5 = FieldElement2(3);
    assert_eq!(FieldElement2(4), x - y);
    assert_eq!(FieldElement2(1), y - x);
}

#[test]
fn z5_negation_stays_canonical() {
    let x: Z5 = FieldElement2(2);
    let zero: Z5 = FieldElement2(0);
    assert_eq!(FieldElement2(3), -x);
    assert_eq!(FieldElement2(0), -zero);
}

#[test]
fn z5_sums_and_products_wrap() {
    let x: Z5 = FieldElement2(4);
    let y: Z5 = FieldElement2(3);
    assert_eq!(FieldElement2(2), x + y);
    assert_eq!(FieldElement2(2), x * y);
}

#[test]
fn z17_addition() {
    let twelve: FieldElement2<17> = FieldElement2(12);
    let five: FieldElement2<17> = FieldElement2(5);
    assert_eq!(FieldElement2(0), twelve + five);
}
