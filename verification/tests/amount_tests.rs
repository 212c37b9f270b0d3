use dirhamly::amount::{order_amounts, Amount, AmountOrder, MAX_MANTISSA, MAX_SCALE};

#[test]
fn amount_new_accepts_parts_in_range() {
    let a = Amount::new(25075, 2).unwrap();
    assert_eq!(a.mantissa(), 25075);
    assert_eq!(a.scale(), 2);
    assert!(Amount::new(MAX_MANTISSA, MAX_SCALE).is_some());
    assert!(Amount::new(-MAX_MANTISSA, 0).is_some());
}

#[test]
fn amount_new_refuses_parts_out_of_range() {
    assert!(Amount::new(1, 29).is_none());
    assert!(Amount::new(MAX_MANTISSA + 1, 0).is_none());
    assert!(Amount::new(-MAX_MANTISSA - 1, 0).is_none());
}

#[test]
fn amount_zero_and_is_zero() {
    let z = Amount::zero();
    assert!(z.is_zero());
    assert_eq!((z.mantissa(), z.scale()), (0, 0));
    assert!(Amount::new(0, 5).unwrap().is_zero());
    assert!(!Amount::new(1, 5).unwrap().is_zero());
}

#[test]
fn amounts_compare_by_value_across_scales() {
    let a = Amount::new(150, 2).unwrap();
    let b = Amount::new(15, 1).unwrap();
    let c = Amount::new(2, 0).unwrap();
    let d = Amount::new(-3, 0).unwrap();
    assert_eq!(order_amounts(&a, &b), AmountOrder::Equal);
    assert_eq!(order_amounts(&a, &c), AmountOrder::Less);
    assert_eq!(order_amounts(&c, &a), AmountOrder::Greater);
    assert_eq!(order_amounts(&d, &a), AmountOrder::Less);
}
