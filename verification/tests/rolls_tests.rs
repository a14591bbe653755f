use roller::rolls::{RangeType, Roll, RollConfig, RollType};

#[test]
fn config_keeps_what_it_was_made_of() {
    let config = RollConfig::new(-3, 9, 4, RollType::Die("4d9".to_string()));
    assert_eq!(config.lower_bound(), -3);
    assert_eq!(config.upper_bound(), 9);
    assert_eq!(config.times_to_roll(), 4);
    assert_eq!(config.roll_type(), &RollType::Die("4d9".to_string()));
}

#[test]
fn roll_sums_its_samples() {
    let roll = Roll::new(RollType::Range(RangeType::Positive), vec![1, 2, 3]);
    assert_eq!(roll.roll_results(), &vec![1, 2, 3]);
    assert_eq!(roll.roll_sum(), 6);
    assert_eq!(roll.roll_type(), &RollType::Range(RangeType::Positive));
}

#[test]
fn no_samples_sum_to_zero() {
    let roll = Roll::new(RollType::Range(RangeType::Positive), vec![]);
    assert!(roll.roll_results().is_empty());
    assert_eq!(roll.roll_sum(), 0);
}

#[test]
fn roll_sum_goes_beyond_the_range_of_a_sample() {
    let roll = Roll::new(
        RollType::Range(RangeType::Positive),
        vec![i32::MAX, i32::MAX, i32::MAX],
    );
    assert_eq!(roll.roll_sum(), 6442450941);
    let roll = Roll::new(RollType::Range(RangeType::Negative), vec![i32::MIN, i32::MIN, -1]);
    assert_eq!(roll.roll_sum(), -4294967297);
}

#[test]
fn roll_keeps_the_order_of_its_samples() {
    let roll = Roll::new(RollType::Range(RangeType::NegativeToPositive), vec![5, -7, 5, 0]);
    assert_eq!(roll.roll_results(), &vec![5, -7, 5, 0]);
    assert_eq!(roll.roll_sum(), 3);
}

#[test]
fn roll_draws_as_often_as_asked() {
    for times in [1u8, 2, 17, 255] {
        let config = RollConfig::new(1, 7, times, RollType::Die(format!("{}d7", times)));
        let roll = config.roll();
        assert_eq!(roll.roll_results().len(), times as usize);
        assert_eq!(roll.roll_type(), config.roll_type());
    }
}

#[test]
fn samples_stay_below_the_upper_bound() {
    // A die of six sides gives one to five.
    let config = RollConfig::new(1, 6, 255, RollType::Die("255d6".to_string()));
    for _ in 0..20 {
        let roll = config.roll();
        for sample in roll.roll_results().iter() {
            assert!(1 <= *sample && *sample <= 5);
        }
    }
}

#[test]
fn range_of_one_value_gives_that_value() {
    let config = RollConfig::new(5, 6, 40, RollType::Range(RangeType::PositiveToPositive));
    let roll = config.roll();
    assert_eq!(roll.roll_results(), &vec![5; 40]);
    assert_eq!(roll.roll_sum(), 200);
}

#[test]
fn samples_cover_the_whole_range_of_integers() {
    let config = RollConfig::new(i32::MIN, i32::MAX, 255, RollType::Range(RangeType::NegativeToPositive));
    let roll = config.roll();
    assert_eq!(roll.roll_results().len(), 255);
    for sample in roll.roll_results().iter() {
        assert!(*sample < i32::MAX);
    }
    let sum: i64 = roll.roll_results().iter().map(|sample| *sample as i64).sum();
    assert_eq!(roll.roll_sum(), sum);
}

#[test]
fn samples_differ_in_a_wide_range() {
    let config = RollConfig::new(0, 1 << 30, 64, RollType::Range(RangeType::Positive));
    let roll = config.roll();
    let first = roll.roll_results()[0];
    assert!(roll.roll_results().iter().any(|sample| *sample != first));
}

#[test]
fn negative_range_gives_negative_samples() {
    let config = RollConfig::new(-10, 0, 100, RollType::Range(RangeType::Negative));
    let roll = config.roll();
    for sample in roll.roll_results().iter() {
        assert!(-10 <= *sample && *sample < 0);
    }
    assert!(roll.roll_sum() <= -100 && roll.roll_sum() >= -1000);
}
