use bms_store_gui::calendar::{days_to_ymd, days_to_ymd_signed, format_datetime, format_ms, is_leap};

#[test]
fn days_to_ymd_epoch_start() {
    assert_eq!(days_to_ymd(0), (1970, 1, 1));
}

#[test]
fn days_to_ymd_month_and_year_boundaries() {
    assert_eq!(days_to_ymd(31), (1970, 2, 1));
    assert_eq!(days_to_ymd(59), (1970, 3, 1));
    assert_eq!(days_to_ymd(364), (1970, 12, 31));
    assert_eq!(days_to_ymd(365), (1971, 1, 1));
}

#[test]
fn days_to_ymd_leap_day() {
    assert_eq!(days_to_ymd(789), (1972, 2, 29));
    assert_eq!(days_to_ymd(790), (1972, 3, 1));
    assert_eq!(days_to_ymd(19723), (2024, 1, 1));
    assert_eq!(days_to_ymd(11016), (2000, 2, 29));
}

#[test]
fn leap_year_rule() {
    assert!(is_leap(2000));
    assert!(is_leap(2024));
    assert!(!is_leap(1900));
    assert!(!is_leap(2023));
}

#[test]
fn days_to_ymd_signed_negative_stays_in_january_1970() {
    assert_eq!(days_to_ymd_signed(-2), (1970, 1, -1));
    assert_eq!(days_to_ymd_signed(19723), (2024, 1, 1));
}

#[test]
fn format_ms_renders_utc() {
    assert_eq!(format_ms(0), "1970-01-01 00:00:00");
    assert_eq!(format_ms(1_700_000_000_000), "2023-11-14 22:13:20");
    assert_eq!(format_ms(951_782_400_123), "2000-02-29 00:00:00");
}

#[test]
fn format_datetime_renders_utc_and_signed_fields() {
    assert_eq!(format_datetime(1_700_000_000_000), "2023-11-14 22:13:20");
    assert_eq!(format_datetime(-1000), "1970-01-01 00:00:-1");
    assert_eq!(format_datetime(-172_800_000), "1970-01--1 00:00:00");
}
