use bms_store_gui::numparse::{parse_i64, parse_u32};
use bms_store_gui::text::{csv_field_string, split_chars};

fn cs(s: &str) -> Vec<char> {
    s.chars().collect()
}

#[test]
fn parse_i64_follows_std_rules() {
    assert_eq!(parse_i64(&cs("-42")), Some(-42));
    assert_eq!(parse_i64(&cs("+7")), Some(7));
    assert_eq!(parse_i64(&cs("007")), Some(7));
    assert_eq!(parse_i64(&cs("")), None);
    assert_eq!(parse_i64(&cs("-")), None);
    assert_eq!(parse_i64(&cs("1x")), None);
    assert_eq!(parse_i64(&cs("9223372036854775807")), Some(i64::MAX));
    assert_eq!(parse_i64(&cs("9223372036854775808")), None);
    assert_eq!(parse_i64(&cs("-9223372036854775808")), Some(i64::MIN));
    for s in ["12", "-0", "+", "--1", " 1", "123456789012345678901234"] {
        assert_eq!(parse_i64(&cs(s)), s.parse::<i64>().ok());
    }
}

#[test]
fn parse_u32_follows_std_rules() {
    assert_eq!(parse_u32(&cs("4294967295")), Some(u32::MAX));
    assert_eq!(parse_u32(&cs("4294967296")), None);
    assert_eq!(parse_u32(&cs("-0")), None);
    assert_eq!(parse_u32(&cs("+5")), Some(5));
    for s in ["0", "", "+", "99", "1-"] {
        assert_eq!(parse_u32(&cs(s)), s.parse::<u32>().ok());
    }
}

#[test]
fn split_matches_std_split() {
    for (s, sep) in [("a-b-c", '-'), ("", '-'), ("-a-", '-'), ("abc", 'T'), ("x::y", ':')] {
        let got: Vec<String> = split_chars(&cs(s), sep).into_iter().map(|v| v.into_iter().collect()).collect();
        let want: Vec<String> = s.split(sep).map(|p| p.to_string()).collect();
        assert_eq!(got, want);
    }
}

#[test]
fn csv_fields_without_carriage_return_rule() {
    assert_eq!(csv_field_string("a\rb", false), "a\rb");
    assert_eq!(csv_field_string("a\rb", true), "\"a\rb\"");
    assert_eq!(csv_field_string("", false), "");
}
