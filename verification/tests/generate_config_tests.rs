use roller::arguments::{
    generate_config, generate_die_config, generate_range_config, parse_neg_start_range,
    parse_pos_start_range, ParseError,
};
use roller::rolls::{RangeType, RollType};

#[test]
fn plain_number_rolls_from_zero() {
    let config = generate_config("5").unwrap();
    assert_eq!(config.lower_bound(), 0);
    assert_eq!(config.upper_bound(), 5);
    assert_eq!(config.times_to_roll(), 1);
    assert_eq!(config.roll_type(), &RollType::Range(RangeType::Positive));
}

#[test]
fn plain_number_may_carry_a_plus() {
    let config = generate_config("+42").unwrap();
    assert_eq!((config.lower_bound(), config.upper_bound()), (0, 42));
    assert_eq!(config.roll_type(), &RollType::Range(RangeType::Positive));
}

#[test]
fn negative_number_rolls_up_to_zero() {
    let config = generate_config("-10").unwrap();
    assert_eq!(config.lower_bound(), -10);
    assert_eq!(config.upper_bound(), 0);
    assert_eq!(config.times_to_roll(), 1);
    assert_eq!(config.roll_type(), &RollType::Range(RangeType::Negative));
}

#[test]
fn positive_to_positive_range() {
    let config = generate_config("3-7").unwrap();
    assert_eq!((config.lower_bound(), config.upper_bound()), (3, 7));
    assert_eq!(config.times_to_roll(), 1);
    assert_eq!(config.roll_type(), &RollType::Range(RangeType::PositiveToPositive));
}

#[test]
fn positive_to_positive_range_is_put_in_order() {
    let config = generate_config("101-100").unwrap();
    assert_eq!((config.lower_bound(), config.upper_bound()), (100, 101));
    assert_eq!(config.roll_type(), &RollType::Range(RangeType::PositiveToPositive));
}

#[test]
fn positive_to_negative_range() {
    let config = generate_config("100--100").unwrap();
    assert_eq!((config.lower_bound(), config.upper_bound()), (-100, 100));
    assert_eq!(config.times_to_roll(), 1);
    assert_eq!(config.roll_type(), &RollType::Range(RangeType::PositiveToNegative));
}

#[test]
fn negative_to_positive_range() {
    let config = generate_config("-3-7").unwrap();
    assert_eq!((config.lower_bound(), config.upper_bound()), (-3, 7));
    assert_eq!(config.times_to_roll(), 1);
    assert_eq!(config.roll_type(), &RollType::Range(RangeType::NegativeToPositive));
}

#[test]
fn negative_to_negative_range() {
    let config = generate_config("-100--88").unwrap();
    assert_eq!((config.lower_bound(), config.upper_bound()), (-100, -88));
    assert_eq!(config.times_to_roll(), 1);
    assert_eq!(config.roll_type(), &RollType::Range(RangeType::NegativeToNegative));
}

#[test]
fn negative_to_negative_range_is_put_in_order() {
    let config = generate_config("-3--7").unwrap();
    assert_eq!((config.lower_bound(), config.upper_bound()), (-7, -3));
    assert_eq!(config.roll_type(), &RollType::Range(RangeType::NegativeToNegative));
}

#[test]
fn die_without_count_rolls_once() {
    let config = generate_config("d20").unwrap();
    assert_eq!(config.times_to_roll(), 1);
    assert_eq!(config.lower_bound(), 1);
    assert_eq!(config.upper_bound(), 20);
    assert_eq!(config.roll_type(), &RollType::Die("1d20".to_string()));
}

#[test]
fn die_with_count() {
    let config = generate_config("3d6").unwrap();
    assert_eq!(config.times_to_roll(), 3);
    assert_eq!(config.lower_bound(), 1);
    assert_eq!(config.upper_bound(), 6);
    assert_eq!(config.roll_type(), &RollType::Die("3d6".to_string()));
}

#[test]
fn die_label_is_written_from_the_numbers() {
    let config = generate_config("+03d+006").unwrap();
    assert_eq!(config.times_to_roll(), 3);
    assert_eq!(config.upper_bound(), 6);
    assert_eq!(config.roll_type(), &RollType::Die("3d6".to_string()));
}

#[test]
fn die_may_have_negative_sides() {
    let config = generate_config("2d-4").unwrap();
    assert_eq!(config.times_to_roll(), 2);
    assert_eq!((config.lower_bound(), config.upper_bound()), (1, -4));
    assert_eq!(config.roll_type(), &RollType::Die("2d-4".to_string()));
}

#[test]
fn die_count_cannot_be_zero() {
    assert_eq!(generate_config("0d6").unwrap_err(), ParseError::MalformedDieToken);
    assert_eq!(generate_config("00d6").unwrap_err(), ParseError::MalformedDieToken);
    assert_eq!(generate_config("+0d6").unwrap_err(), ParseError::MalformedDieToken);
    assert_eq!(generate_config("0d0").unwrap_err(), ParseError::MalformedDieToken);
    assert_eq!(generate_die_config("0D6").unwrap_err(), ParseError::MalformedDieToken);
}

#[test]
fn die_count_of_one_is_the_least() {
    let config = generate_config("1d6").unwrap();
    assert_eq!(config.times_to_roll(), 1);
    assert_eq!(config.roll_type(), &RollType::Die("1d6".to_string()));
    assert_eq!(generate_config("01d6").unwrap().times_to_roll(), 1);
}

#[test]
fn every_config_draws_at_least_once() {
    for token in ["5", "-10", "3-7", "3--7", "-3-7", "-3--7", "d6", "1d6", "2d4", "255d-1", "D"] {
        if let Ok(config) = generate_config(token) {
            assert!(config.times_to_roll() >= 1, "{:?}", token);
        }
    }
}

#[test]
fn die_count_is_at_most_255() {
    assert_eq!(generate_config("255d6").unwrap().times_to_roll(), 255);
    assert_eq!(generate_config("256d6").unwrap_err(), ParseError::MalformedDieToken);
}

#[test]
fn die_count_cannot_be_negative() {
    assert_eq!(generate_config("-1d6").unwrap_err(), ParseError::MalformedDieToken);
    assert_eq!(generate_config("-0d6").unwrap_err(), ParseError::MalformedDieToken);
}

#[test]
fn die_needs_sides() {
    assert_eq!(generate_config("d").unwrap_err(), ParseError::MalformedDieToken);
    assert_eq!(generate_config("3d").unwrap_err(), ParseError::MalformedDieToken);
    assert_eq!(generate_config("3dx").unwrap_err(), ParseError::MalformedDieToken);
    assert_eq!(generate_config("xd6").unwrap_err(), ParseError::MalformedDieToken);
}

#[test]
fn upper_case_alone_is_no_die() {
    // Only a lower-case `d` makes a die expression of a token.
    assert_eq!(generate_config("2D6").unwrap_err(), ParseError::MalformedNumber);
    assert_eq!(generate_config("D6").unwrap_err(), ParseError::MalformedNumber);
}

#[test]
fn first_mark_of_either_case_splits_a_die() {
    // The token has a lower-case `d`, and the upper-case one comes first.
    assert_eq!(generate_config("2Dd6").unwrap_err(), ParseError::MalformedDieToken);
    assert_eq!(generate_config("Dd6").unwrap_err(), ParseError::MalformedDieToken);
    assert_eq!(generate_config("d6D").unwrap_err(), ParseError::MalformedDieToken);
}

#[test]
fn die_config_takes_the_upper_case_mark() {
    let config = generate_die_config("2D6").unwrap();
    assert_eq!(config.times_to_roll(), 2);
    assert_eq!(config.upper_bound(), 6);
    assert_eq!(config.roll_type(), &RollType::Die("2d6".to_string()));
}

#[test]
fn die_config_without_a_mark_is_refused() {
    assert_eq!(generate_die_config("26").unwrap_err(), ParseError::MalformedDieToken);
    assert_eq!(generate_die_config("").unwrap_err(), ParseError::MalformedDieToken);
}

#[test]
fn malformed_number_is_refused() {
    assert_eq!(generate_config("abc").unwrap_err(), ParseError::MalformedNumber);
    assert_eq!(generate_config("").unwrap_err(), ParseError::MalformedNumber);
    assert_eq!(generate_config("x80-_").unwrap_err(), ParseError::MalformedNumber);
    assert_eq!(generate_config("1_000").unwrap_err(), ParseError::MalformedNumber);
    assert_eq!(generate_config(" 5").unwrap_err(), ParseError::MalformedNumber);
    assert_eq!(generate_config("5 ").unwrap_err(), ParseError::MalformedNumber);
}

#[test]
fn number_out_of_range_is_refused() {
    assert_eq!(generate_config("2147483647").unwrap().upper_bound(), 2147483647);
    assert_eq!(generate_config("2147483648").unwrap_err(), ParseError::MalformedNumber);
    assert_eq!(generate_config("-2147483648").unwrap().lower_bound(), -2147483648);
    assert_eq!(generate_config("-2147483649").unwrap_err(), ParseError::MalformedNumber);
    assert_eq!(generate_config("99999999999999999999999").unwrap_err(), ParseError::MalformedNumber);
}

#[test]
fn two_leading_dashes_split_at_the_second() {
    // Two dashes with the first in front: the text before the second dash is a bare dash.
    assert_eq!(generate_config("--5").unwrap_err(), ParseError::MalformedNumber);
}

#[test]
fn dash_at_the_end_leaves_a_bound_empty() {
    assert_eq!(generate_config("5-").unwrap_err(), ParseError::MalformedNumber);
    assert_eq!(generate_config("-").unwrap_err(), ParseError::MalformedNumber);
}

#[test]
fn more_than_three_dashes_are_refused() {
    assert_eq!(generate_config("1----2").unwrap_err(), ParseError::UnclassifiableRange);
    assert_eq!(generate_config("----").unwrap_err(), ParseError::UnclassifiableRange);
    assert_eq!(generate_range_config("-1--2-").unwrap_err(), ParseError::UnclassifiableRange);
}

#[test]
fn dashes_are_counted_by_character() {
    assert_eq!(generate_config("\u{e9}-5").unwrap_err(), ParseError::MalformedNumber);
    assert_eq!(generate_config("5-\u{e9}").unwrap_err(), ParseError::MalformedNumber);
    assert_eq!(generate_config("\u{663}").unwrap_err(), ParseError::MalformedNumber);
}

#[test]
fn same_token_same_config() {
    let first = generate_config("-12--7").unwrap();
    let second = generate_config("-12--7").unwrap();
    assert_eq!(first.lower_bound(), second.lower_bound());
    assert_eq!(first.upper_bound(), second.upper_bound());
    assert_eq!(first.times_to_roll(), second.times_to_roll());
    assert_eq!(first.roll_type(), second.roll_type());
    assert_eq!(generate_config("4d").unwrap_err(), generate_config("4d").unwrap_err());
}

#[test]
fn range_config_of_each_shape() {
    let shapes = [
        ("7", 0, 7, RangeType::Positive),
        ("-7", -7, 0, RangeType::Negative),
        ("7-3", 3, 7, RangeType::PositiveToPositive),
        ("7--3", -3, 7, RangeType::PositiveToNegative),
        ("-7-3", -7, 3, RangeType::NegativeToPositive),
        ("-7--3", -7, -3, RangeType::NegativeToNegative),
    ];
    for (token, lower, upper, shape) in shapes {
        let config = generate_range_config(token).unwrap();
        assert_eq!(config.lower_bound(), lower);
        assert_eq!(config.upper_bound(), upper);
        assert_eq!(config.times_to_roll(), 1);
        assert_eq!(config.roll_type(), &RollType::Range(shape));
    }
}

#[test]
fn split_at_the_first_dash() {
    assert_eq!(parse_pos_start_range("100-101"), Ok(vec![100, 101]));
    assert_eq!(parse_pos_start_range("100--101"), Ok(vec![-101, 100]));
    assert_eq!(parse_pos_start_range("-5"), Err(ParseError::MalformedNumber));
}

#[test]
fn split_at_the_second_dash() {
    assert_eq!(parse_neg_start_range("-100-101"), Ok(vec![-100, 101]));
    assert_eq!(parse_neg_start_range("-100--101"), Ok(vec![-101, -100]));
    assert_eq!(parse_neg_start_range("1--2"), Err(ParseError::MalformedNumber));
}
