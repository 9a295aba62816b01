use red_js_interpreter::calendar::{civil_from_days, days_from_civil};

#[test]
fn the_epoch_is_day_zero() {
    assert_eq!(days_from_civil(1970, 1, 1), 0);
    assert_eq!(civil_from_days(0), (1970, 1, 1));
}

#[test]
fn days_before_the_epoch_are_negative() {
    assert_eq!(days_from_civil(1969, 12, 31), -1);
    assert_eq!(civil_from_days(-1), (1969, 12, 31));
}

#[test]
fn known_dates() {
    assert_eq!(days_from_civil(2000, 3, 1), 11_017);
    assert_eq!(days_from_civil(2000, 2, 29), 11_016);
    assert_eq!(civil_from_days(11_016), (2000, 2, 29));
    assert_eq!(days_from_civil(2024, 1, 1), 19_723);
    assert_eq!(civil_from_days(19_723), (2024, 1, 1));
    assert_eq!(days_from_civil(1600, 1, 1), -135_140);
    assert_eq!(civil_from_days(-135_140), (1600, 1, 1));
}

#[test]
fn round_trip_from_days() {
    for z in [-1_000_000i64, -719_468, -1, 0, 1, 59, 60, 365, 10_957, 2_932_896] {
        let (y, m, d) = civil_from_days(z);
        assert_eq!(days_from_civil(y, m, d), z);
    }
}

#[test]
fn round_trip_from_dates() {
    for (y, m, d) in [(1970, 1, 1), (1900, 2, 28), (2000, 2, 29), (2100, 12, 31), (-1, 3, 1), (0, 2, 29)] {
        assert_eq!(civil_from_days(days_from_civil(y, m, d)), (y, m, d));
    }
}

#[test]
fn every_day_is_a_valid_date() {
    let leap = |y: i64| y % 4 == 0 && (y % 100 != 0 || y % 400 == 0);
    for z in (-800_000i64..800_000).step_by(997) {
        let (y, m, d) = civil_from_days(z);
        assert!((1..=12).contains(&m));
        let len = match m {
            2 => if leap(y) { 29 } else { 28 },
            4 | 6 | 9 | 11 => 30,
            _ => 31,
        };
        assert!(1 <= d && d <= len);
    }
}
