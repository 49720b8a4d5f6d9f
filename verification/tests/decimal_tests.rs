use neuracle::decimal::Decimal;

const ONE: i128 = 1_000_000_000_000_000_000;

fn units(n: i128) -> Decimal {
    Decimal { raw: n * ONE }
}

fn milli(n: i128) -> Decimal {
    Decimal { raw: n * (ONE / 1000) }
}

#[test]
fn from_u64_scales_whole_numbers() {
    assert_eq!(Decimal::from_u64(0), Decimal { raw: 0 });
    assert_eq!(Decimal::from_u64(100), units(100));
    assert_eq!(Decimal::from_u64(u64::MAX).raw, (u64::MAX as i128) * ONE);
    assert_eq!(Decimal::one(), units(1));
    assert_eq!(Decimal::zero(), Decimal { raw: 0 });
}

#[test]
fn add_and_sub_are_exact() {
    assert_eq!(milli(1500).add(milli(250)), milli(1750));
    assert_eq!(milli(1500).sub(milli(2500)), milli(-1000));
}

#[test]
fn comparisons() {
    assert!(milli(1).le(milli(1)));
    assert!(!milli(1).lt(milli(1)));
    assert!(milli(-1).lt(milli(0)));
}

#[test]
fn mul_of_whole_and_fractional_values() {
    assert_eq!(milli(2500).mul(units(4)), units(10));
    assert_eq!(milli(1500).mul(milli(1500)), milli(2250));
    assert_eq!(units(-3).mul(milli(500)), milli(-1500));
    assert_eq!(units(-3).mul(units(-3)), units(9));
}

#[test]
fn mul_rounds_towards_zero() {
    let half = milli(500);
    assert_eq!(Decimal { raw: 3 }.mul(half), Decimal { raw: 1 });
    assert_eq!(Decimal { raw: -3 }.mul(half), Decimal { raw: -1 });
    assert_eq!(Decimal { raw: 1 }.mul(Decimal { raw: 1 }), Decimal { raw: 0 });
}

#[test]
fn mul_of_large_values_does_not_overflow_in_between() {
    // 10^19 units times 10 units: the raw product needs more than 128 bits
    let big = units(10_000_000_000_000_000_000);
    assert_eq!(big.mul(units(10)), units(100_000_000_000_000_000_000));
    let min = Decimal { raw: i128::MIN };
    assert_eq!(min.mul(units(1)), min);
}

#[test]
fn div_exact_and_truncated() {
    assert_eq!(units(10).div(units(4)), milli(2500));
    assert_eq!(units(1).div(units(3)), Decimal { raw: 333_333_333_333_333_333 });
    assert_eq!(units(-1).div(units(3)), Decimal { raw: -333_333_333_333_333_333 });
    assert_eq!(units(7).div(milli(-500)), units(-14));
    assert_eq!(units(0).div(units(5)), units(0));
}

#[test]
fn div_by_large_divisor() {
    let huge = Decimal { raw: i128::MAX };
    assert_eq!(huge.div(huge), units(1));
    assert_eq!(units(1).div(huge), Decimal { raw: 0 });
}

#[test]
fn floor_goes_down() {
    assert_eq!(milli(5500).floor(), units(5));
    assert_eq!(milli(5000).floor(), units(5));
    assert_eq!(milli(-5500).floor(), units(-6));
    assert_eq!(milli(-5000).floor(), units(-5));
    assert_eq!(milli(999).floor(), units(0));
}

#[test]
fn to_u64_of_whole_numbers() {
    assert_eq!(units(42).to_u64(), 42);
    assert_eq!(units(0).to_u64(), 0);
    assert_eq!(Decimal::from_u64(u64::MAX).to_u64(), u64::MAX);
}

#[test]
fn parse_whole_and_fractional() {
    assert_eq!(Decimal::parse("42"), Some(units(42)));
    assert_eq!(Decimal::parse("0.5"), Some(milli(500)));
    assert_eq!(Decimal::parse("-1.25"), Some(milli(-1250)));
    assert_eq!(Decimal::parse("007.000000000000000001"), Some(Decimal { raw: 7 * ONE + 1 }));
    assert_eq!(Decimal::parse("-0"), Some(units(0)));
}

#[test]
fn parse_refuses_malformed_text() {
    for text in ["", "-", ".5", "5.", "1.2.3", "1e3", " 1", "+1", "1.0000000000000000001", "１"] {
        assert_eq!(Decimal::parse(text), None, "{}", text);
    }
}

#[test]
fn parse_limits() {
    assert_eq!(Decimal::parse("-170141183460469231731.687303715884105728"), Some(Decimal { raw: i128::MIN }));
    assert_eq!(Decimal::parse("170141183460469231731.687303715884105727"), Some(Decimal { raw: i128::MAX }));
    assert_eq!(Decimal::parse("170141183460469231731.687303715884105728"), None);
    assert_eq!(Decimal::parse("999999999999999999999999999999"), None);
}

#[test]
fn checked_ops_agree_with_exact_ops() {
    assert_eq!(milli(1500).checked_add(milli(250)), Some(milli(1750)));
    assert_eq!(milli(1500).checked_sub(milli(2500)), Some(milli(-1000)));
    assert_eq!(milli(2500).checked_mul(units(4)), Some(units(10)));
    assert_eq!(units(-3).checked_mul(milli(500)), Some(milli(-1500)));
    assert_eq!(units(10).checked_div(units(4)), Some(milli(2500)));
    assert_eq!(units(-1).checked_div(units(3)), Some(Decimal { raw: -333_333_333_333_333_333 }));
    assert_eq!(milli(2500).checked_floor(), Some(units(2)));
    assert_eq!(milli(-2500).checked_floor(), Some(units(-3)));
    assert_eq!(units(-4).checked_floor(), Some(units(-4)));
}

#[test]
fn checked_ops_refuse_what_does_not_fit() {
    let max = Decimal { raw: i128::MAX };
    let min = Decimal { raw: i128::MIN };
    assert_eq!(max.checked_add(Decimal { raw: 1 }), None);
    assert_eq!(min.checked_sub(Decimal { raw: 1 }), None);
    assert_eq!(max.checked_mul(units(2)), None);
    assert_eq!(min.checked_mul(units(-1)), None);
    assert_eq!(min.checked_mul(units(1)), Some(min));
    assert_eq!(units(1).checked_div(Decimal::zero()), None);
    assert_eq!(max.checked_div(milli(500)), None);
    assert_eq!(min.checked_div(units(-1)), None);
    assert_eq!(min.checked_floor(), None);
    assert_eq!(max.checked_floor().map(|d| d.raw % ONE), Some(0));
}
