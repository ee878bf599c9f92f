//! Resize settings, and the trigger fraction among them.

use lmdb::resize::InvalidResizeSettings;
use lmdb::{Binary32, DatabaseResizeSettings, InvalidResizeTriggerFraction, ResizeTriggerFraction};
use rand::rngs::StdRng;
use rand::{Rng, SeedableRng};

fn fraction(value: f32) -> Result<ResizeTriggerFraction, InvalidResizeTriggerFraction> {
    ResizeTriggerFraction::new(Binary32 { bits: value.to_bits() })
}

fn value(fraction: &ResizeTriggerFraction) -> f32 {
    f32::from_bits(fraction.as_f32().bits)
}

// 90.0 reads as "90 percent" but the setting is a fraction, so it would never trigger a resize.
#[test]
fn rejects_percent_shaped_ninety() {
    let error = fraction(90.0).unwrap_err();
    assert_eq!(f32::from_bits(error.rejected().bits), 90.0);
}

#[test]
fn rejects_values_above_one() {
    for rejected in [1.5, 2.0, 90.0, 100.0, f32::MAX, f32::INFINITY] {
        assert!(fraction(rejected).is_err(), "{} must be rejected", rejected);
    }
}

// The smallest value that is still above 1.0, to pin the upper bound exactly.
#[test]
fn rejects_the_value_just_above_one() {
    let just_above_one = f32::from_bits(1.0_f32.to_bits() + 1);
    assert!(just_above_one > 1.0);
    assert!(fraction(just_above_one).is_err(), "{} must be rejected", just_above_one);
}

#[test]
fn rejects_negative_values() {
    for rejected in [-0.1, -1.0, -90.0, f32::MIN, f32::NEG_INFINITY, -f32::MIN_POSITIVE] {
        assert!(fraction(rejected).is_err(), "{} must be rejected", rejected);
    }
}

// The largest value that is still below 0.0, to pin the lower bound exactly.
#[test]
fn rejects_the_value_just_below_zero() {
    let just_below_zero = f32::from_bits((-0.0_f32).to_bits() + 1);
    assert!(just_below_zero < 0.0);
    assert!(fraction(just_below_zero).is_err(), "{} must be rejected", just_below_zero);
}

// NaN compares false against every bound, so it must fall out as rejected rather than sneak in.
#[test]
fn rejects_nan() {
    assert!(fraction(f32::NAN).is_err());
}

// Both ends are legal, and each end has a meaning worth keeping.
#[test]
fn accepts_inclusive_bounds() {
    assert_eq!(value(&fraction(0.0).unwrap()), 0.0);
    assert_eq!(value(&fraction(1.0).unwrap()), 1.0);
}

#[test]
fn accepts_typical_fractions() {
    for accepted in [0.01, 0.25, 0.5, 0.9, 0.99] {
        let fraction = fraction(accepted).unwrap();
        assert_eq!(value(&fraction), accepted);
    }
}

// Negative zero equals zero under IEEE comparison, so it is in range. Bits are compared rather than
// values, because -0.0 == 0.0 is true.
#[test]
fn accepts_negative_zero() {
    let stored = fraction(-0.0).unwrap().as_f32();
    assert_eq!(stored.bits, (-0.0_f32).to_bits());
}

#[test]
fn error_message_names_the_rejected_value_and_the_unit() {
    let error = fraction(90.0).unwrap_err();
    let rejected = format!("{}", f32::from_bits(error.rejected().bits));
    let message = error.message(&rejected);
    assert!(message.contains("but 90 was given"), "{}", message);
    assert!(message.contains("fraction"), "{}", message);
    assert_eq!(
        message,
        "lmdb: Resize trigger must be a fraction within [0, 1], but 90 was given. \
         This is a fraction and not a percent, so 90% full is 0.9"
    );
}

#[test]
fn default_settings_trigger_at_ninety_percent_and_validate() {
    let settings = DatabaseResizeSettings::make_default();
    assert_eq!(value(&settings.resize_trigger_fraction), 0.9);
    assert_eq!(settings.validate(), Ok(()));
    assert_eq!(DatabaseResizeSettings::default().validate(), Ok(()));
}

#[test]
fn default_settings_grow_by_a_quarter_to_two_gigabytes() {
    let settings = DatabaseResizeSettings::default();
    assert_eq!(settings.min_resize_step, 1 << 28);
    assert_eq!(settings.max_resize_step, 1 << 31);
    assert_eq!(settings.default_resize_ratio_percentage, 100);
    assert_eq!(settings.resize_trigger_fraction.as_f32().bits, 0.9_f32.to_bits());
}

// The type has to hold up inside the settings struct it exists for, not only on its own.
#[test]
fn settings_carrying_a_valid_fraction_validate() {
    let settings = DatabaseResizeSettings {
        min_resize_step: 1 << 20,
        max_resize_step: 1 << 21,
        default_resize_ratio_percentage: 10,
        resize_trigger_fraction: fraction(0.75).unwrap(),
    };
    assert_eq!(settings.validate(), Ok(()));
    assert_eq!(value(&settings.resize_trigger_fraction), 0.75);
}

#[test]
fn settings_that_cannot_be_used_are_refused() {
    let settings = |min_resize_step, max_resize_step, default_resize_ratio_percentage| {
        DatabaseResizeSettings {
            min_resize_step,
            max_resize_step,
            default_resize_ratio_percentage,
            resize_trigger_fraction: fraction(0.9).unwrap(),
        }
        .validate()
    };
    assert_eq!(settings(1, 1, 1), Ok(()));
    assert_eq!(settings(0, 0, 0), Err(InvalidResizeSettings::MinStepZero));
    assert_eq!(settings(1, 0, 1), Err(InvalidResizeSettings::MaxStepZero));
    assert_eq!(settings(2, 1, 1), Err(InvalidResizeSettings::MinStepAboveMaxStep));
    assert_eq!(settings(1, 2, 0), Err(InvalidResizeSettings::RatioZero));

    let message = |fault: InvalidResizeSettings| fault.message();
    assert_eq!(message(InvalidResizeSettings::MinStepZero), "lmdb: Min step must be positive");
    assert_eq!(message(InvalidResizeSettings::MaxStepZero), "lmdb: Max step must be positive");
    assert_eq!(
        message(InvalidResizeSettings::MinStepAboveMaxStep),
        "lmdb: Min step must be <= max step"
    );
    assert_eq!(message(InvalidResizeSettings::RatioZero), "lmdb: Resize ratio must be > 0");
}

#[test]
fn random_in_range_fractions_are_accepted() {
    // Seed is printed so a failing run can be replayed by hardcoding it.
    let seed: u64 = rand::random();
    println!("random_in_range_fractions_are_accepted seed: {}", seed);
    let mut rng = StdRng::seed_from_u64(seed);

    for _ in 0..1000 {
        let given: f32 = rng.gen_range(0.0..=1.0);
        let built = fraction(given);
        assert!(built.is_ok(), "seed {}: {} is in range and must be accepted", seed, given);
        assert_eq!(value(&built.unwrap()), given, "seed {}: value must round-trip", seed);
    }
}

#[test]
fn random_out_of_range_fractions_are_rejected() {
    // Seed is printed so a failing run can be replayed by hardcoding it.
    let seed: u64 = rand::random();
    println!("random_out_of_range_fractions_are_rejected seed: {}", seed);
    let mut rng = StdRng::seed_from_u64(seed);

    for _ in 0..1000 {
        let above: f32 = rng.gen_range(1.0001..1.0e6);
        assert!(
            fraction(above).is_err(),
            "seed {}: {} is above 1 and must be rejected",
            seed,
            above
        );

        let below: f32 = rng.gen_range(-1.0e6..-0.0001);
        assert!(
            fraction(below).is_err(),
            "seed {}: {} is below 0 and must be rejected",
            seed,
            below
        );
    }
}
