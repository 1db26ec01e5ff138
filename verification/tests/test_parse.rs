use millis::parse;

// parse(string)

#[test]
fn test_parse_should_not_throw_an_error() {
    let _ = parse("1m");
}

#[test]
fn test_parse_should_preserve_ms() {
    assert_eq!(parse("100").unwrap(), 100);
}

#[test]
fn test_parse_should_convert_from_m_to_ms() {
    assert_eq!(parse("1m").unwrap(), 60000);
}

#[test]
fn test_parse_should_convert_from_h_to_ms() {
    assert_eq!(parse("1h").unwrap(), 3600000);
}

#[test]
fn test_parse_should_convert_d_to_ms() {
    assert_eq!(parse("2d").unwrap(), 172800000);
}

#[test]
fn test_parse_should_convert_w_to_ms() {
    assert_eq!(parse("3w").unwrap(), 1814400000);
}

#[test]
fn test_parse_should_convert_s_to_ms() {
    assert_eq!(parse("1s").unwrap(), 1000);
}

#[test]
fn test_parse_should_convert_ms_to_ms() {
    assert_eq!(parse("100ms").unwrap(), 100);
}

#[test]
fn test_parse_should_convert_y_to_ms() {
    assert_eq!(parse("1y").unwrap(), 31557600000);
}

#[test]
fn test_parse_should_work_with_decimals() {
    assert_eq!(parse("1.5h").unwrap(), 5400000);
}

#[test]
fn test_parse_should_work_with_multiple_spaces() {
    assert_eq!(parse("1   s").unwrap(), 1000);
}

#[test]
fn test_parse_should_return_error_if_invalid() {
    assert!(parse("☃").is_err());
    assert!(parse("10-.5").is_err());
    assert!(parse("ms").is_err());
}

#[test]
fn test_parse_should_be_case_insensitive() {
    assert_eq!(parse("1.5H").unwrap(), 5400000);
}

#[test]
fn test_parse_should_work_with_negative_integers() {
    assert_eq!(parse("-100ms").unwrap(), -100);
}

#[test]
fn test_parse_should_work_with_negative_decimals() {
    assert_eq!(parse("-1.5h").unwrap(), -5400000);
    assert_eq!(parse("-10.5h").unwrap(), -37800000);
}

#[test]
fn test_parse_should_work_with_negative_decimals_starting_with_dot() {
    assert_eq!(parse("-.5h").unwrap(), -1800000);
}

// parse(long string)

#[test]
fn parse_long_string_should_not_throw_an_error() {
    let _ = parse("53 milliseconds");
}

#[test]
fn should_convert_milliseconds_to_ms() {
    assert_eq!(parse("53 milliseconds").unwrap(), 53);
}

#[test]
fn should_convert_msecs_to_ms() {
    assert_eq!(parse("17 msecs").unwrap(), 17);
}

#[test]
fn should_convert_sec_to_ms() {
    assert_eq!(parse("1 sec").unwrap(), 1000);
}

#[test]
fn should_convert_from_min_to_ms() {
    assert_eq!(parse("1 min").unwrap(), 60000);
}

#[test]
fn should_convert_from_hr_to_ms() {
    assert_eq!(parse("1 hr").unwrap(), 3600000);
}

#[test]
fn should_convert_days_to_ms() {
    assert_eq!(parse("2 days").unwrap(), 172800000);
}

#[test]
fn should_convert_weeks_to_ms() {
    assert_eq!(parse("1 week").unwrap(), 604800000);
}

#[test]
fn should_convert_years_to_ms() {
    assert_eq!(parse("1 year").unwrap(), 31557600000);
}

#[test]
fn should_work_with_decimals() {
    assert_eq!(parse("1.5 hours").unwrap(), 5400000);
}

#[test]
fn should_work_with_negative_integers() {
    assert_eq!(parse("-100 milliseconds").unwrap(), -100);
}

#[test]
fn should_work_with_negative_decimals() {
    assert_eq!(parse("-1.5 hours").unwrap(), -5400000);
}

#[test]
fn should_work_with_negative_decimals_starting_with_dot() {
    assert_eq!(parse("-.5 hr").unwrap(), -1800000);
}

// parse(invalid inputs)

#[test]
fn should_throw_error_when_parse_empty_string() {
    assert!(parse("").is_err());
}

#[test]
fn should_throw_error_when_parse_too_long_string() {
    let long_string = "a".repeat(101);
    assert!(parse(long_string.as_str()).is_err());
}

#[test]
fn should_throw_error_for_invalid_format() {
    assert!(parse("not a time").is_err());
    assert!(parse("123abc").is_err());
}

#[test]
fn should_throw_error_for_unknown_unit() {
    assert!(parse("5 xyz").is_err());
}
