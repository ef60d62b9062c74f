use weflow::calendar::{days_from_civil, unix_timestamp, year_bounds};
use weflow::error::ErrorKind;

#[test]
fn epoch_is_day_zero() {
    assert_eq!(days_from_civil(1970, 1, 1), 0);
    assert_eq!(days_from_civil(1969, 12, 31), -1);
    assert_eq!(days_from_civil(1970, 1, 2), 1);
}

#[test]
fn days_across_leap_days() {
    assert_eq!(days_from_civil(2000, 3, 1), 11017);
    assert_eq!(days_from_civil(2024, 2, 29), 19782);
    assert_eq!(days_from_civil(2024, 3, 1), 19783);
    assert_eq!(days_from_civil(1900, 3, 1), -25508);
    assert_eq!(days_from_civil(1600, 1, 1), -135140);
}

#[test]
fn timestamps_of_days() {
    assert_eq!(unix_timestamp(2024, 1, 1).unwrap(), 1_704_067_200);
    assert_eq!(unix_timestamp(2038, 1, 19).unwrap(), 2_147_472_000);
    let err = unix_timestamp(2038, 1, 20).unwrap_err();
    assert_eq!(err.kind, ErrorKind::Usage);
    assert_eq!(err.message, "date is out of range");
    assert_eq!(unix_timestamp(1901, 12, 14).unwrap(), -2_147_472_000);
    assert!(unix_timestamp(1901, 12, 13).is_err());
}

#[test]
fn year_bounds_of_2024() {
    assert_eq!(year_bounds(2024).unwrap(), (1_704_067_200, 1_735_689_599));
    assert_eq!(year_bounds(1970).unwrap(), (0, 31_535_999));
    assert_eq!(year_bounds(2037).unwrap(), (2_114_380_800, 2_145_916_799));
}

#[test]
fn year_bounds_refuses_years_outside_range() {
    for y in [1969, 2101, -5, 0, i32::MIN, i32::MAX] {
        let err = year_bounds(y).unwrap_err();
        assert_eq!(err.kind, ErrorKind::Usage);
        assert_eq!(err.message, "year must be between 1970 and 2100");
    }
}

#[test]
fn year_bounds_beyond_i32_seconds() {
    for y in [2038, 2039, 2100] {
        let err = year_bounds(y).unwrap_err();
        assert_eq!(err.kind, ErrorKind::Usage);
        assert_eq!(err.message, "date is out of range");
    }
}

#[test]
fn year_bounds_tile_the_time_line() {
    for y in 1970..2037 {
        let (b, e) = year_bounds(y).unwrap();
        let (nb, _) = year_bounds(y + 1).unwrap();
        assert_eq!(e + 1, nb);
        let leap = (y % 4 == 0 && y % 100 != 0) || y % 400 == 0;
        assert_eq!((e - b + 1) as i64, 86_400 * if leap { 366 } else { 365 });
    }
}

#[test]
fn counts_on_past_the_calendar() {
    // month 13 of 2024 is January 2025, day 0 of March is the last day of February
    assert_eq!(days_from_civil(2024, 13, 1), 20089);
    assert_eq!(days_from_civil(2024, 3, 0), 19782);
    // a month number read back as a negative i32 rounds its day of year toward zero
    assert_eq!(days_from_civil(2000, u32::MAX - 19, 1), 10681);
}
