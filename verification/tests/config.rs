use wallet::config::{cookie_secure, optional_non_negative, optional_positive, parse_u64, required};

#[test]
fn numbers_parse_like_the_standard_library() {
    assert_eq!(parse_u64("0"), Some(0));
    assert_eq!(parse_u64("+42"), Some(42));
    assert_eq!(parse_u64("18446744073709551615"), Some(u64::MAX));
    assert_eq!(parse_u64("18446744073709551616"), None);
    assert_eq!(parse_u64(""), None);
    assert_eq!(parse_u64("+"), None);
    assert_eq!(parse_u64("-1"), None);
    assert_eq!(parse_u64("1 0"), None);
    for text in ["7", "+7", "007", "99999999999999999999", "x"] {
        assert_eq!(parse_u64(text), text.parse::<u64>().ok(), "{text}");
    }
}

#[test]
fn optional_values_fall_back_and_are_trimmed() {
    assert_eq!(optional_non_negative(None, 10), Ok(10));
    assert_eq!(optional_non_negative(Some(" 0 "), 10), Ok(0));
    assert_eq!(optional_non_negative(Some("dez"), 10), Err(()));
    assert_eq!(optional_positive(None, 14), Ok(14));
    assert_eq!(optional_positive(Some("0"), 14), Err(()));
    assert_eq!(optional_positive(Some(" 30"), 14), Ok(30));
}

#[test]
fn required_secrets_must_not_be_blank() {
    assert_eq!(required(None), None);
    assert_eq!(required(Some("   ")), None);
    assert_eq!(required(Some(" x ")), Some(" x ".to_string()));
}

#[test]
fn only_the_literal_true_makes_cookies_secure() {
    assert!(cookie_secure(Some("true")));
    for value in ["TRUE", "1", "yes", " true"] {
        assert!(!cookie_secure(Some(value)), "{value}");
    }
    assert!(!cookie_secure(None));
}
