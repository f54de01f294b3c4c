use unity_p2p_core::fixed_point::{FixedPoint, FIXED_ONE};

#[test]
fn test_add() {
    let fixed33 = FixedPoint(33);
    let fixed47 = FixedPoint(47);
    assert_eq!(fixed33.add(fixed47), FixedPoint(80));
}

#[test]
fn test_subtruct() {
    let fixed50 = FixedPoint(50);
    let fixed60 = FixedPoint(60);
    let fixed40 = FixedPoint(40);
    assert_eq!(fixed50.subtruct(fixed40).unwrap(), FixedPoint(10));
    assert!(fixed50.subtruct(fixed60).is_err());
}

#[test]
fn test_multiply_uint() {
    let fixed50 = FixedPoint(50);
    assert_eq!(fixed50.multiply_uint(50), FixedPoint(2500));
}

#[test]
fn test_divide_uint() {
    let fixed50 = FixedPoint(50);
    assert_eq!(fixed50.divide_uint(2), FixedPoint(25));
}

#[test]
fn test_divide_by_power_of_two() {
    let fixed50 = FixedPoint(50);
    assert_eq!(fixed50.divide_by_power_of_two(4), FixedPoint(3));
}

#[test]
fn one_is_two_to_the_seventy() {
    assert_eq!(FixedPoint::one(), FixedPoint(FIXED_ONE));
    assert_eq!(FIXED_ONE, 1u128 << 70);
    assert_eq!(FixedPoint::new(), FixedPoint::zero());
}
