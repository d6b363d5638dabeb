use dice_engine::request::ValidationError;
use dice_engine::rng::{EntropyRandomSource, FixedRandomSource};
use dice_engine::stats::{self_test, supported_die, MomentAccumulator};

#[test]
fn thousand_d7_samples() {
    let mut rng = EntropyRandomSource::from_entropy();
    let stats = self_test(1000, 7, &mut rng).unwrap();
    assert_eq!(stats.count, 1000);
    // The mean of a fair d7 is 4.0 with a standard error near 0.063;
    // a band of half a point on either side is far beyond any plausible
    // fluctuation.
    let mean = stats.sum as f64 / stats.count as f64;
    assert!(3.5 <= mean && mean <= 4.5);
}

#[test]
fn unsupported_die_fails_for_every_count() {
    let mut rng = EntropyRandomSource::from_entropy();
    for n in [0, 1, 10, 1000] {
        match self_test(n, 9, &mut rng) {
            Err(e) => assert_eq!(e, ValidationError::UnsupportedDieType),
            Ok(_) => panic!("a d9 must be rejected"),
        }
    }
}

#[test]
fn allow_list_is_exact() {
    let allowed = [2u32, 3, 4, 5, 6, 7, 8, 10, 12, 14, 16, 20, 24, 30, 100];
    for faces in 0..=120u32 {
        assert_eq!(supported_die(faces), allowed.contains(&faces));
    }
}

#[test]
fn moments_are_exact_power_sums() {
    let mut rng = FixedRandomSource::new(vec![1, 2, 3, 4]);
    let stats = self_test(4, 4, &mut rng).unwrap();
    assert_eq!(stats.count, 4);
    assert_eq!(stats.sum, 1 + 2 + 3 + 4);
    assert_eq!(stats.sum_squares, 1 + 4 + 9 + 16);
    assert_eq!(stats.sum_cubes, 1 + 8 + 27 + 64);
}

#[test]
fn fractions_report_mean_and_variance() {
    let mut acc = MomentAccumulator::new();
    for x in [2u16, 4, 4, 4, 5, 5, 7, 9] {
        acc.add(x);
    }
    let (num, den) = acc.mean_fraction();
    assert_eq!(num, 40);
    assert_eq!(den, 8);
    // Sample variance of this classic data set is exactly 32/7.
    let (vnum, vden) = acc.variance_fraction();
    assert_eq!(vnum as f64 / vden as f64, 32.0 / 7.0);
}

#[test]
fn accumulator_starts_empty() {
    let acc = MomentAccumulator::new();
    assert_eq!(acc.count, 0);
    assert_eq!(acc.sum, 0);
    assert_eq!(acc.sum_squares, 0);
    assert_eq!(acc.sum_cubes, 0);
}

#[test]
fn samples_stay_within_the_die() {
    let mut rng = EntropyRandomSource::from_entropy();
    let stats = self_test(500, 2, &mut rng).unwrap();
    assert_eq!(stats.count, 500);
    // Every roll of a d2 is 1 or 2, so the sum is pinned between them.
    assert!(500 <= stats.sum && stats.sum <= 1000);
    assert!(stats.sum_squares <= 4 * 500);
}

#[test]
fn validation_error_message() {
    assert_eq!(
        ValidationError::UnsupportedDieType.message(),
        "Please use an implemented dice type."
    );
}
