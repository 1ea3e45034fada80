use cpufreq::parse_range;
use cpufreq::text::{decimal_string, parse_number, parse_u64, parse_usize, same_text, split_at_char, trim};
use cpufreq::ParseError;

#[test]
fn range_mixed_tokens_in_order() {
    assert_eq!(
        parse_range("0,4,6-12,18").unwrap(),
        vec![0, 4, 6, 7, 8, 9, 10, 11, 12, 18]
    );
}

#[test]
fn range_single_point_interval() {
    assert_eq!(parse_range("0-0").unwrap(), vec![0]);
}

#[test]
fn range_empty_text_fails() {
    assert_eq!(parse_range(""), Err(ParseError));
}

#[test]
fn range_overlaps_keep_duplicates() {
    assert_eq!(parse_range("0-2,1-3").unwrap(), vec![0, 1, 2, 1, 2, 3]);
    assert_eq!(parse_range("5,5").unwrap(), vec![5, 5]);
}

#[test]
fn range_file_text_with_newline() {
    assert_eq!(parse_range("0-3\n").unwrap(), vec![0, 1, 2, 3]);
    assert_eq!(parse_range(" 2 - 4 ,7\n").unwrap(), vec![2, 3, 4, 7]);
}

#[test]
fn range_malformed_tokens_fail() {
    assert!(parse_range("3-1").is_err());
    assert!(parse_range("1-2-3").is_err());
    assert!(parse_range("a").is_err());
    assert!(parse_range("1,,2").is_err());
    assert!(parse_range("1-").is_err());
    assert!(parse_range("+1").is_err());
    assert!(parse_range("1,").is_err());
}

#[test]
fn range_largest_id() {
    let max = usize::MAX.to_string();
    assert_eq!(parse_range(&max).unwrap(), vec![usize::MAX]);
    let text = format!("{}-{}", usize::MAX - 1, usize::MAX);
    assert_eq!(parse_range(&text).unwrap(), vec![usize::MAX - 1, usize::MAX]);
    let over = format!("{}0", usize::MAX);
    assert!(parse_range(&over).is_err());
}

#[test]
fn decimal_reading() {
    assert_eq!(parse_u64("0"), Some(0));
    assert_eq!(parse_u64("2300000"), Some(2300000));
    assert_eq!(parse_u64("18446744073709551615"), Some(u64::MAX));
    assert_eq!(parse_u64("18446744073709551616"), None);
    assert_eq!(parse_u64(""), None);
    assert_eq!(parse_u64("12a"), None);
    assert_eq!(parse_u64(" 1"), None);
    assert_eq!(parse_usize("42"), Some(42));
}

#[test]
fn decimal_writing() {
    assert_eq!(decimal_string(0), "0");
    assert_eq!(decimal_string(7), "7");
    assert_eq!(decimal_string(2301000), "2301000");
    assert_eq!(decimal_string(u64::MAX), "18446744073709551615");
}

#[test]
fn trimming_and_splitting() {
    assert_eq!(trim("  schedutil\n"), "schedutil");
    assert_eq!(trim("\t\r\n "), "");
    assert_eq!(trim("a b"), "a b");
    assert_eq!(split_at_char("1 2  3", ' '), vec!["1", "2", "", "3"]);
    assert_eq!(split_at_char("", ','), vec![""]);
    assert!(same_text("intel-pstate", "intel-pstate"));
    assert!(!same_text("intel-pstate", "intel_pstate"));
}

#[test]
fn attribute_numbers() {
    assert_eq!(parse_number("+5"), Some(5));
    assert_eq!(parse_number("5"), Some(5));
    assert_eq!(parse_number("+"), None);
    assert_eq!(parse_number("-5"), None);
    assert_eq!(parse_number("+-5"), None);
    assert_eq!(parse_number("+18446744073709551615"), Some(u64::MAX));
}
