use fortuner::config::{parse_u64, Config, ConfigError};

#[test]
fn seeds_are_unsigned_decimal_numbers() {
    assert_eq!(parse_u64("0").unwrap(), 0);
    assert_eq!(parse_u64("1").unwrap(), 1);
    assert_eq!(parse_u64("+42").unwrap(), 42);
    assert_eq!(parse_u64("007").unwrap(), 7);
    assert_eq!(parse_u64("18446744073709551615").unwrap(), u64::MAX);
}

#[test]
fn malformed_seeds_are_refused() {
    for input in ["", "+", "-1", "1.5", "a", "1a", " 1", "1 ", "++1", "18446744073709551616",
        "99999999999999999999999", "\u{661}"]
    {
        let error = parse_u64(input).unwrap_err();
        match &error {
            ConfigError::InvalidSeed(echoed) => assert_eq!(echoed, input),
            other => panic!("unexpected error {:?}", other),
        }
        assert!(input.parse::<u64>().is_err());
    }
    assert_eq!(parse_u64("foo").unwrap_err().message(), "\"foo\" not a valid integer");
}

#[test]
fn seed_parsing_agrees_with_the_standard_parser() {
    for input in ["3", "+0", "000", "12345678901234567890", "18446744073709551615", "9"] {
        assert_eq!(parse_u64(input).ok(), input.parse::<u64>().ok());
    }
}

#[test]
fn a_configuration_is_validated_once() {
    let sources = vec!["jokes".to_string(), "quotes".to_string()];
    let config = Config::build(sources.clone(), Some("foo"), true, Some("10")).unwrap();
    assert_eq!(config.sources, sources);
    assert_eq!(config.seed, Some(10));
    assert!(config.pattern.unwrap().is_match("FOO bar"));

    let config = Config::build(sources.clone(), None, false, None).unwrap();
    assert!(config.pattern.is_none());
    assert_eq!(config.seed, None);
}

#[test]
fn the_pattern_is_checked_before_the_seed() {
    let sources = vec!["jokes".to_string()];
    let error = Config::build(sources.clone(), Some("*"), false, Some("x")).unwrap_err();
    assert_eq!(error.message(), "Invalid --pattern *");
    let error = Config::build(sources, Some("ok"), false, Some("x")).unwrap_err();
    assert_eq!(error.message(), "\"x\" not a valid integer");
}

#[test]
fn a_source_is_required() {
    let error = Config::build(Vec::new(), Some("*"), false, Some("x")).unwrap_err();
    assert!(matches!(error, ConfigError::MissingSource));
    assert_eq!(error.message(), "at least one source is required");
}
