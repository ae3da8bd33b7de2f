use mynosql_ui::utils::{format_unix_microseconds, unix_to_ymdhms};

#[test]
fn formats_a_known_instant() {
    assert_eq!(
        format_unix_microseconds(1_700_000_000_123_456),
        "2023-11-14T22:13:20.123456Z"
    );
}

#[test]
fn formats_the_first_microsecond() {
    assert_eq!(format_unix_microseconds(1), "1970-01-01T00:00:00.000001Z");
}

#[test]
fn zero_and_negative_show_a_dash() {
    assert_eq!(format_unix_microseconds(0), "\u{2014}");
    assert_eq!(format_unix_microseconds(-5), "\u{2014}");
    assert_eq!(format_unix_microseconds(i64::MIN), "\u{2014}");
}

#[test]
fn formats_a_leap_day() {
    // 2000-02-29T12:00:00Z
    assert_eq!(
        format_unix_microseconds(951_825_600_000_000),
        "2000-02-29T12:00:00.000000Z"
    );
}

#[test]
fn formats_the_largest_value() {
    assert_eq!(
        format_unix_microseconds(i64::MAX),
        "294247-01-10T04:00:54.775807Z"
    );
}

#[test]
fn epoch_is_first_of_january_1970() {
    assert_eq!(unix_to_ymdhms(0), (1970, 1, 1, 0, 0, 0));
}

#[test]
fn one_second_before_epoch() {
    assert_eq!(unix_to_ymdhms(-1), (1969, 12, 31, 23, 59, 59));
}

#[test]
fn end_of_a_leap_year() {
    // 2024-12-31T23:59:59Z
    assert_eq!(unix_to_ymdhms(1_735_689_599), (2024, 12, 31, 23, 59, 59));
    assert_eq!(unix_to_ymdhms(1_735_689_600), (2025, 1, 1, 0, 0, 0));
}

#[test]
fn century_that_is_not_leap() {
    // 1900-03-01T00:00:00Z, the day after 1900-02-28
    assert_eq!(unix_to_ymdhms(-2_203_891_200), (1900, 3, 1, 0, 0, 0));
    assert_eq!(unix_to_ymdhms(-2_203_891_201), (1900, 2, 28, 23, 59, 59));
}

#[test]
fn timestamp_text_sorts_like_the_instants() {
    let instants: [i64; 9] = [
        1,
        999_999,
        1_000_000,
        86_399_999_999,
        86_400_000_000,
        951_825_600_000_000,
        1_700_000_000_123_456,
        1_700_000_000_123_457,
        253_402_300_799_999_999,
    ];
    for pair in instants.windows(2) {
        let earlier = format_unix_microseconds(pair[0]);
        let later = format_unix_microseconds(pair[1]);
        assert!(earlier < later, "{} should sort before {}", earlier, later);
    }
    assert_eq!(
        format_unix_microseconds(253_402_300_799_999_999),
        "9999-12-31T23:59:59.999999Z"
    );
}
