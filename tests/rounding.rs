use settler_kernel::{round_amount, KernelError, RoundingMode, RoundingRule};

fn rule(mode: RoundingMode, increment: i64) -> RoundingRule {
    RoundingRule {
        mode,
        increment_minor_units: increment,
    }
}

#[test]
fn rounding_is_deterministic() {
    let rule = RoundingRule {
        mode: RoundingMode::Nearest,
        increment_minor_units: 10,
    };

    assert_eq!(round_amount(105, &rule).unwrap(), 110);
    assert_eq!(round_amount(101, &rule).unwrap(), 100);
    assert_eq!(round_amount(-105, &rule).unwrap(), -110);
    assert_eq!(round_amount(-101, &rule).unwrap(), -100);
}

#[test]
fn rounding_down_goes_toward_negative_infinity() {
    let r = rule(RoundingMode::Down, 10);
    assert_eq!(round_amount(107, &r).unwrap(), 100);
    assert_eq!(round_amount(-107, &r).unwrap(), -110);
    assert_eq!(round_amount(-110, &r).unwrap(), -110);
}

#[test]
fn rounding_up_goes_toward_positive_infinity() {
    let r = rule(RoundingMode::Up, 10);
    assert_eq!(round_amount(101, &r).unwrap(), 110);
    assert_eq!(round_amount(-109, &r).unwrap(), -100);
    assert_eq!(round_amount(120, &r).unwrap(), 120);
}

#[test]
fn rounding_toward_and_away_from_zero() {
    let t = rule(RoundingMode::TowardZero, 10);
    assert_eq!(round_amount(109, &t).unwrap(), 100);
    assert_eq!(round_amount(-109, &t).unwrap(), -100);
    let a = rule(RoundingMode::AwayFromZero, 10);
    assert_eq!(round_amount(101, &a).unwrap(), 110);
    assert_eq!(round_amount(-101, &a).unwrap(), -110);
    assert_eq!(round_amount(-100, &a).unwrap(), -100);
}

#[test]
fn rounding_nearest_odd_increment() {
    let r = rule(RoundingMode::Nearest, 5);
    assert_eq!(round_amount(12, &r).unwrap(), 15);
    assert_eq!(round_amount(11, &r).unwrap(), 10);
    assert_eq!(round_amount(-12, &r).unwrap(), -15);
}

#[test]
fn rounding_increment_one_is_identity() {
    for mode in [
        RoundingMode::Down,
        RoundingMode::Up,
        RoundingMode::Nearest,
        RoundingMode::TowardZero,
        RoundingMode::AwayFromZero,
    ] {
        assert_eq!(round_amount(-12345, &rule(mode, 1)).unwrap(), -12345);
    }
}

#[test]
fn rounding_twice_is_rounding_once() {
    for mode in [
        RoundingMode::Down,
        RoundingMode::Up,
        RoundingMode::Nearest,
        RoundingMode::TowardZero,
        RoundingMode::AwayFromZero,
    ] {
        let r = rule(mode, 7);
        for v in [-50i64, -7, -4, -3, 0, 3, 4, 7, 50] {
            let once = round_amount(v, &r).unwrap();
            assert_eq!(round_amount(once, &r).unwrap(), once);
        }
    }
}

#[test]
fn rounding_toward_zero_never_grows() {
    let r = rule(RoundingMode::TowardZero, 4);
    for v in [-9i64, -4, -1, 0, 1, 4, 9] {
        assert!(round_amount(v, &r).unwrap().abs() <= v.abs());
    }
}

#[test]
fn rounding_rejects_non_positive_increment() {
    assert_eq!(
        round_amount(10, &rule(RoundingMode::Nearest, 0)),
        Err(KernelError::InvalidRoundingIncrement)
    );
    assert_eq!(
        round_amount(10, &rule(RoundingMode::Up, -5)),
        Err(KernelError::InvalidRoundingIncrement)
    );
}
