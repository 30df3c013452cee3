use pty_host::clock::{
    days_to_date, iso_from_reading, iso_now, iso_timestamp, millis_from_reading, now_millis,
};

#[test]
fn days_to_date_unix_epoch() {
    let (y, m, d) = days_to_date(0);
    assert_eq!((y, m, d), (1970, 1, 1));
}

#[test]
fn days_to_date_known_date() {
    let (y, m, d) = days_to_date(20_513);
    assert_eq!((y, m, d), (2026, 3, 1));
}

#[test]
fn days_to_date_around_leap_days() {
    assert_eq!(days_to_date(58), (1970, 2, 28));
    assert_eq!(days_to_date(59), (1970, 3, 1));
    assert_eq!(days_to_date(789), (1972, 2, 29));
    assert_eq!(days_to_date(790), (1972, 3, 1));
    assert_eq!(days_to_date(11_016), (2000, 2, 29));
    assert_eq!(days_to_date(11_017), (2000, 3, 1));
    assert_eq!(days_to_date(47_540), (2100, 2, 28));
    assert_eq!(days_to_date(47_541), (2100, 3, 1));
    assert_eq!(days_to_date(364), (1970, 12, 31));
    assert_eq!(days_to_date(365), (1971, 1, 1));
}

#[test]
fn days_to_date_before_the_epoch() {
    assert_eq!(days_to_date(-1), (1969, 12, 31));
    assert_eq!(days_to_date(-365), (1969, 1, 1));
    assert_eq!(days_to_date(-719_468), (0, 3, 1));
    assert_eq!(days_to_date(-719_469), (0, 2, 29));
    assert_eq!(days_to_date(-719_528), (0, 1, 1));
    assert_eq!(days_to_date(-719_529), (-1, 12, 31));
}

#[test]
fn days_to_date_steps_one_day_at_a_time() {
    let month_days = |y: i64, m: u32| -> u32 {
        let leap = y % 4 == 0 && (y % 100 != 0 || y % 400 == 0);
        match m {
            2 => if leap { 29 } else { 28 },
            4 | 6 | 9 | 11 => 30,
            _ => 31,
        }
    };
    let mut expected: (i64, u32, u32) = (1899, 12, 30);
    for days in -25_568i64..60_000 {
        let (y, m, d) = expected;
        expected = if d < month_days(y, m) {
            (y, m, d + 1)
        } else if m < 12 {
            (y, m + 1, 1)
        } else {
            (y + 1, 1, 1)
        };
        assert_eq!(days_to_date(days), expected);
    }
}

#[test]
fn millis_from_reading_counts_whole_milliseconds() {
    assert_eq!(millis_from_reading(None), 0);
    assert_eq!(millis_from_reading(Some((0, 0))), 0);
    assert_eq!(millis_from_reading(Some((1, 999_999))), 1000);
    assert_eq!(millis_from_reading(Some((1, 1_000_000))), 1001);
    assert_eq!(millis_from_reading(Some((1_772_323_200, 999_999_999))), 1_772_323_200_999);
    assert_eq!(millis_from_reading(Some((u64::MAX, 0))), u64::MAX.wrapping_mul(1000));
}

#[test]
fn iso_timestamp_of_known_moments() {
    assert_eq!(iso_timestamp(0, 0), "1970-01-01T00:00:00.000Z");
    assert_eq!(iso_timestamp(1_772_368_205, 250), "2026-03-01T12:30:05.250Z");
    assert_eq!(iso_timestamp(951_868_799, 7), "2000-02-29T23:59:59.007Z");
    assert_eq!(iso_timestamp(253_402_300_799, 999), "9999-12-31T23:59:59.999Z");
    assert_eq!(iso_timestamp(253_402_300_800, 0), "10000-01-01T00:00:00.000Z");
}

#[test]
fn iso_from_reading_cuts_to_milliseconds() {
    assert_eq!(iso_from_reading(None), "1970-01-01T00:00:00.000Z");
    assert_eq!(iso_from_reading(Some((86_400, 123_999_999))), "1970-01-02T00:00:00.123Z");
}

#[test]
fn now_is_after_the_year_2020() {
    let ms = now_millis();
    assert!(ms > 1_577_836_800_000);
    let text = iso_now();
    assert_eq!(text.len(), 24);
    assert!(text.ends_with('Z'));
    assert_eq!(text.as_bytes()[10], b'T');
    assert!(text.as_str() > "2020-01-01T00:00:00.000Z");
    let later = now_millis();
    assert!(later >= ms);
    assert!(later - ms < 60_000);
}
