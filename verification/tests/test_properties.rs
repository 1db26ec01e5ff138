use millis::{ms, parse, parse_strict, Error, Options, Value};

// Round trips at exact unit boundaries

#[test]
fn round_trip_whole_units() {
    assert_eq!(parse(&millis::format(60000, None)).unwrap(), 60000);
    assert_eq!(parse(&millis::format(-60000, None)).unwrap(), -60000);
    assert_eq!(parse(&millis::format(7200000, None)).unwrap(), 7200000);
    assert_eq!(parse(&millis::format(86400000, None)).unwrap(), 86400000);
    assert_eq!(parse(&millis::format(1209600000, None)).unwrap(), 1209600000);
    assert_eq!(parse(&millis::format(2629800000, None)).unwrap(), 2629800000);
    assert_eq!(parse(&millis::format(31557600000, None)).unwrap(), 31557600000);
    assert_eq!(parse(&millis::format(-31557600000, None)).unwrap(), -31557600000);
}

#[test]
fn round_trip_below_one_second() {
    // below one second the rendering is the raw count, so every value
    // round-trips exactly
    assert_eq!(parse(&millis::format(0, None)).unwrap(), 0);
    assert_eq!(parse(&millis::format(1, None)).unwrap(), 1);
    assert_eq!(parse(&millis::format(-999, None)).unwrap(), -999);
    assert_eq!(parse(&millis::format(999, None)).unwrap(), 999);
}

// Default options

#[test]
fn no_options_formats_like_default_options() {
    for v in [0i64, 1, -1, 999, 1000, 1200, 60000, 234234234, -234234234] {
        assert_eq!(millis::format(v, None), millis::format(v, Some(Options { long: false })));
    }
}

// Sign symmetry

#[test]
fn format_sign_symmetry() {
    for v in [1i64, 999, 1000, 1200, 60000, 234234234, 31557600000] {
        assert_eq!(millis::format(-v, None), format!("-{}", millis::format(v, None)));
        assert_eq!(
            millis::format(-v, Some(Options { long: true })),
            format!("-{}", millis::format(v, Some(Options { long: true })))
        );
    }
}

#[test]
fn parse_sign_symmetry() {
    for s in ["100", "1.5h", ".5ms", "2 days", "53 YeArS"] {
        let negated = format!("-{}", s);
        assert_eq!(parse(&negated).unwrap(), -parse(s).unwrap());
    }
}

// Case insensitivity

#[test]
fn parse_is_case_insensitive() {
    for s in ["2h", "1.5 Hours", "10 SECONDS", "1mo", "1Mo", "1MO", "5 wKs"] {
        let upper = s.to_uppercase();
        let lower = s.to_lowercase();
        match parse(s) {
            Ok(v) => {
                assert_eq!(parse(&upper).unwrap(), v);
                assert_eq!(parse(&lower).unwrap(), v);
            },
            Err(_) => {
                assert!(parse(&upper).is_err());
                assert!(parse(&lower).is_err());
            },
        }
    }
}

// Boundary scenarios

#[test]
fn parse_boundary_scenarios() {
    assert_eq!(parse("2h").unwrap(), 7200000);
    assert_eq!(parse("1d").unwrap(), 86400000);
    assert_eq!(parse("10 seconds").unwrap(), 10000);
    assert_eq!(parse("1mo").unwrap(), 2629800000);
    assert_eq!(parse("1y").unwrap(), 31557600000);
    assert_eq!(parse("-100ms").unwrap(), -100);
    assert_eq!(parse(".5ms").unwrap(), 1); // 0.5 rounds away from zero
    assert!(parse("").is_err());
    assert!(parse(&"a".repeat(101)).is_err());
    assert!(parse("5 xyz").is_err());
    assert!(parse("123abc").is_err());
}

#[test]
fn parse_error_variants() {
    assert!(matches!(parse("").unwrap_err(), Error::InvalidLength { .. }));
    assert!(matches!(parse(&"a".repeat(101)).unwrap_err(), Error::InvalidLength { .. }));
    assert!(matches!(parse("10-.5").unwrap_err(), Error::MalformedInput { .. }));
    assert!(matches!(parse("not a time").unwrap_err(), Error::MalformedInput { .. }));
    assert!(matches!(parse("12.").unwrap_err(), Error::MalformedInput { .. }));
    assert!(matches!(parse(".").unwrap_err(), Error::MalformedInput { .. }));
    assert!(matches!(parse("-").unwrap_err(), Error::MalformedInput { .. }));
    match parse("5 xyz").unwrap_err() {
        Error::UnknownUnit { unit, value } => {
            assert_eq!(unit, "xyz");
            assert_eq!(value, "5 xyz");
        },
        _ => panic!("Expected an unknown-unit error"),
    }
    assert!(matches!(ms(Value::String(String::new()), None).unwrap_err(), Error::EmptyInput));
}

// Formatting scenarios

#[test]
fn format_scenarios() {
    assert_eq!(millis::format(60000, None), "1m");
    assert_eq!(millis::format(60000, Some(Options { long: true })), "1 minute");
    assert_eq!(millis::format(234234234, None), "3d");
    assert_eq!(millis::format(1200, Some(Options { long: true })), "1 second");
    assert_eq!(millis::format(1800000, Some(Options { long: true })), "30 minutes");
}

#[test]
fn format_pluralizes_at_one_and_a_half_units() {
    assert_eq!(millis::format(1499, Some(Options { long: true })), "1 second");
    assert_eq!(millis::format(1500, Some(Options { long: true })), "2 seconds");
    assert_eq!(millis::format(89999999, Some(Options { long: true })), "1 day");
    assert_eq!(millis::format(129600000, Some(Options { long: true })), "2 days");
}

// Monotonic unit selection at the multiplier boundaries

#[test]
fn format_selects_largest_reached_unit() {
    assert_eq!(millis::format(999, None), "999ms");
    assert_eq!(millis::format(1000, None), "1s");
    assert_eq!(millis::format(59999, None), "60s");
    assert_eq!(millis::format(60000, None), "1m");
    assert_eq!(millis::format(3599999, None), "60m");
    assert_eq!(millis::format(3600000, None), "1h");
    assert_eq!(millis::format(86399999, None), "24h");
    assert_eq!(millis::format(86400000, None), "1d");
    assert_eq!(millis::format(604799999, None), "7d");
    assert_eq!(millis::format(604800000, None), "1w");
    assert_eq!(millis::format(2629799999, None), "4w");
    assert_eq!(millis::format(2629800000, None), "1mo");
    assert_eq!(millis::format(31557599999, None), "12mo");
    assert_eq!(millis::format(31557600000, None), "1y");
}

// Rounding and exactness deep in the fraction

#[test]
fn parse_rounds_half_away_from_zero() {
    assert_eq!(parse("0.5").unwrap(), 1);
    assert_eq!(parse("-0.5").unwrap(), -1);
    assert_eq!(parse("0.49999999999").unwrap(), 0);
    assert_eq!(parse("2.5s").unwrap(), 2500);
    assert_eq!(parse(".0005s").unwrap(), 1); // exactly half a millisecond
    assert_eq!(parse("-.0005s").unwrap(), -1);
    assert_eq!(parse(".0004999999s").unwrap(), 0);
    assert_eq!(parse("0.0000000001y").unwrap(), 3); // 3.15576 rounds to 3
}

#[test]
fn parse_accepts_unicode_whitespace() {
    assert_eq!(parse("1\u{a0}s").unwrap(), 1000);
    assert_eq!(parse("1\u{2009}weeks").unwrap(), 604800000);
    assert_eq!(parse("1 \t s").unwrap(), 1000);
}

#[test]
fn parse_handles_leading_zeros() {
    assert_eq!(parse("007").unwrap(), 7);
    assert_eq!(parse("000.5s").unwrap(), 500);
    assert_eq!(parse("0").unwrap(), 0);
    assert_eq!(parse("-0").unwrap(), 0);
}

// The extremes of the i64 range

#[test]
fn format_is_total_at_the_extremes() {
    assert_eq!(millis::format(i64::MAX, None), "292271023y");
    assert_eq!(millis::format(i64::MIN, None), "-292271023y");
    assert_eq!(millis::format(i64::MIN, Some(Options { long: true })), "-292271023 years");
}

#[test]
fn parse_clamps_to_the_i64_range() {
    assert_eq!(parse("9223372036854775807").unwrap(), i64::MAX);
    assert_eq!(parse("-9223372036854775808").unwrap(), i64::MIN);
    assert_eq!(parse("99999999999999999999999999").unwrap(), i64::MAX);
    assert_eq!(parse("-99999999999999999999999999").unwrap(), i64::MIN);
    assert_eq!(parse("999999999999y").unwrap(), i64::MAX);
    assert_eq!(parse("-999999999999y").unwrap(), i64::MIN);
}

// The strict alias and the dispatcher agree with parse

#[test]
fn parse_strict_is_parse() {
    for s in ["2h", "1.5 hours", "-.5h", "", "5 xyz", "1   s"] {
        match parse(s) {
            Ok(v) => assert_eq!(parse_strict(s).unwrap(), v),
            Err(_) => assert!(parse_strict(s).is_err()),
        }
    }
}

#[test]
fn dispatcher_matches_parse_and_format() {
    match ms(Value::String("1.5h".to_string()), None).unwrap() {
        Value::Number(n) => assert_eq!(n, parse("1.5h").unwrap()),
        _ => panic!("Expected number"),
    }
    match ms(Value::Number(234234234), None).unwrap() {
        Value::String(s) => assert_eq!(s, millis::format(234234234, None)),
        _ => panic!("Expected string"),
    }
}
