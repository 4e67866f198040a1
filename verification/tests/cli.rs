use shellcd_basic::cli::parse_dorarion;

#[test]
fn parses_dorarion_values() {
    assert_eq!(parse_dorarion("true"), Ok(true));
    assert_eq!(parse_dorarion("1"), Ok(true));
    assert_eq!(parse_dorarion("false"), Ok(false));
    assert_eq!(parse_dorarion("0"), Ok(false));
    assert!(parse_dorarion("yes").is_err());
}

#[test]
fn dorarion_refusal_names_the_accepted_values() {
    assert_eq!(
        parse_dorarion("TRUE"),
        Err("expected one of: true, false, 1, 0".to_string())
    );
    assert!(parse_dorarion("").is_err());
    assert!(parse_dorarion(" 1").is_err());
}
