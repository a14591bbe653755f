use roller::arguments::detect_range_type;
use roller::rolls::RangeType;

/// Given input has no dashes, detects positive integer roll
#[test]
fn detect_positive() {
    assert_eq!(detect_range_type("123"), Ok(RangeType::Positive))
}

/// Given input has one dash, when its index is 0, detects negative integer roll
#[test]
fn detect_negative() {
    assert_eq!(detect_range_type("-100"), Ok(RangeType::Negative))
}

/// Given input has one dash, when its index is not 0, detects positive to positive roll
#[test]
fn detect_positive_to_positive() {
    assert_eq!(detect_range_type("100-101"), Ok(RangeType::PositiveToPositive))
}

/// Given input has two dashes, when index of the first dash is not zero, detects positive to negative roll.
#[test]
fn detect_positive_to_negative() {
    assert_eq!(detect_range_type("100--100"), Ok(RangeType::PositiveToNegative))
}

/// Given input has two dashes, when index of the first dash is zero, detects negative to positive roll.
#[test]
fn detect_negative_to_positive() {
    assert_eq!(detect_range_type("-100-100"), Ok(RangeType::NegativeToPositive))
}

/// Given input has three dashes, detects negative to negative roll.
#[test]
fn detect_negative_to_negative() {
    assert_eq!(detect_range_type("-100--88"), Ok(RangeType::NegativeToNegative))
}
