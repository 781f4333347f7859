use easel::clock::{
    chrono_now, civil_from_unix, decimal_width, digit_text, is_leap, month_length, push_decimal,
    push_padded, timestamp_at, CivilTime,
};

#[test]
fn leap_years_follow_the_gregorian_rule() {
    assert!(is_leap(2000));
    assert!(is_leap(2024));
    assert!(is_leap(1972));
    assert!(!is_leap(1900));
    assert!(!is_leap(2100));
    assert!(!is_leap(2023));
    assert!(!is_leap(1970));
    assert!(is_leap(0));
    assert!(is_leap(-4));
    assert!(!is_leap(-1));
}

#[test]
fn months_have_their_lengths() {
    let common: Vec<u8> = (1..=12).map(|m| month_length(2023, m)).collect();
    assert_eq!(common, vec![31, 28, 31, 30, 31, 30, 31, 31, 30, 31, 30, 31]);
    assert_eq!(month_length(2024, 2), 29);
    assert_eq!(month_length(1900, 2), 28);
}

#[test]
fn the_epoch_is_the_start_of_1970() {
    assert_eq!(
        civil_from_unix(0),
        CivilTime { year: 1970, month: 1, day: 1, hour: 0, minute: 0, second: 0 }
    );
    assert_eq!(timestamp_at(0), "1970-01-01T00:00:00Z");
}

#[test]
fn known_moments_have_their_dates() {
    assert_eq!(timestamp_at(86399), "1970-01-01T23:59:59Z");
    assert_eq!(timestamp_at(86400), "1970-01-02T00:00:00Z");
    assert_eq!(timestamp_at(951782400), "2000-02-29T00:00:00Z");
    assert_eq!(timestamp_at(951868799), "2000-02-29T23:59:59Z");
    assert_eq!(timestamp_at(951868800), "2000-03-01T00:00:00Z");
    assert_eq!(timestamp_at(1431648000), "2015-05-15T00:00:00Z");
    assert_eq!(timestamp_at(1704067199), "2023-12-31T23:59:59Z");
    assert_eq!(timestamp_at(1704067200), "2024-01-01T00:00:00Z");
    assert_eq!(timestamp_at(1709210096), "2024-02-29T12:34:56Z");
    assert_eq!(timestamp_at(4102444800), "2100-01-01T00:00:00Z");
    assert_eq!(timestamp_at(4107542400), "2100-03-01T00:00:00Z");
}

#[test]
fn years_beyond_four_digits_are_written_in_full() {
    assert_eq!(timestamp_at(253402300799), "9999-12-31T23:59:59Z");
    assert_eq!(timestamp_at(253402300800), "10000-01-01T00:00:00Z");
}

#[test]
fn civil_time_is_written_with_padding() {
    let t = CivilTime { year: 987, month: 6, day: 5, hour: 4, minute: 3, second: 2 };
    assert_eq!(t.to_text(), "0987-06-05T04:03:02Z");
    let wide = CivilTime { year: 12345, month: 12, day: 31, hour: 23, minute: 59, second: 59 };
    assert_eq!(wide.to_text(), "12345-12-31T23:59:59Z");
}

#[test]
fn the_present_moment_is_a_timestamp() {
    let now = chrono_now();
    let bytes = now.as_bytes();
    assert_eq!(bytes.len(), 20);
    for (i, b) in bytes.iter().enumerate() {
        match i {
            4 | 7 => assert_eq!(*b, b'-'),
            10 => assert_eq!(*b, b'T'),
            13 | 16 => assert_eq!(*b, b':'),
            19 => assert_eq!(*b, b'Z'),
            _ => assert!(b.is_ascii_digit()),
        }
    }
    assert!(now.as_str() >= "2024-01-01T00:00:00Z");
    let later = chrono_now();
    assert!(later >= now);
}

#[test]
fn decimals_are_written_digit_by_digit() {
    let mut out = String::from("n=");
    push_decimal(&mut out, 0);
    push_decimal(&mut out, 907);
    push_decimal(&mut out, u64::MAX);
    assert_eq!(out, "n=090718446744073709551615");
    assert_eq!(decimal_width(0), 1);
    assert_eq!(decimal_width(9), 1);
    assert_eq!(decimal_width(10), 2);
    assert_eq!(decimal_width(u64::MAX), 20);
    assert_eq!(digit_text(7), "7");
}

#[test]
fn padding_fills_up_to_the_width_and_never_cuts() {
    let mut out = String::new();
    push_padded(&mut out, 7, 3);
    out.push(' ');
    push_padded(&mut out, 1234, 2);
    out.push(' ');
    push_padded(&mut out, 5, 0);
    assert_eq!(out, "007 1234 5");
}
