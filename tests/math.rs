use ws_hub::math::{expression_tokens, factorial, parse_factorial, three_tokens, MAX_FACTORIAL_ARG};

#[test]
fn factorial_values() {
    assert_eq!(factorial(0), Ok(1));
    assert_eq!(factorial(1), Ok(1));
    assert_eq!(factorial(5), Ok(120));
    assert_eq!(factorial(MAX_FACTORIAL_ARG), Ok(2432902008176640000));
}

#[test]
fn factorial_too_large() {
    assert_eq!(
        factorial(21),
        Err("Factorial is too large. Maximum allowed is 20!")
    );
    assert!(factorial(u64::MAX).is_err());
}

#[test]
fn parse_factorial_forms() {
    assert_eq!(parse_factorial("5!"), Ok(Some(120)));
    assert_eq!(parse_factorial("+3!"), Ok(Some(6)));
    assert_eq!(parse_factorial("0!"), Ok(Some(1)));
    assert_eq!(parse_factorial("5"), Ok(None));
    assert_eq!(parse_factorial(""), Ok(None));
    assert_eq!(parse_factorial("2 + 3"), Ok(None));
}

#[test]
fn parse_factorial_errors() {
    assert_eq!(parse_factorial("abc!"), Err("Invalid number for factorial"));
    assert_eq!(parse_factorial("!"), Err("Invalid number for factorial"));
    assert_eq!(parse_factorial("-1!"), Err("Invalid number for factorial"));
    assert_eq!(parse_factorial(" 5!"), Err("Invalid number for factorial"));
    assert_eq!(
        parse_factorial("99999999999999999999!"),
        Err("Invalid number for factorial")
    );
    assert_eq!(
        parse_factorial("21!"),
        Err("Factorial is too large. Maximum allowed is 20!")
    );
}

#[test]
fn expression_tokens_three_words() {
    assert_eq!(
        expression_tokens("  2.5 *\t4 "),
        Ok(("2.5".to_string(), "*".to_string(), "4".to_string()))
    );
    assert_eq!(
        expression_tokens("1 + 2 3"),
        Err("Invalid format. Expected: `<num> <operator> <num>`")
    );
    assert_eq!(
        expression_tokens("1+2"),
        Err("Invalid format. Expected: `<num> <operator> <num>`")
    );
    assert_eq!(
        expression_tokens(""),
        Err("Invalid format. Expected: `<num> <operator> <num>`")
    );
}

#[test]
fn three_tokens_from_words() {
    let words = vec!["7".to_string(), "%".to_string(), "3".to_string()];
    assert_eq!(
        three_tokens(words),
        Ok(("7".to_string(), "%".to_string(), "3".to_string()))
    );
    assert_eq!(
        three_tokens(vec!["7".to_string()]),
        Err("Invalid format. Expected: `<num> <operator> <num>`")
    );
}
