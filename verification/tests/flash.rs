use wallet::error::AppError;
use wallet::flash::{business_flash, flash_cookie_value, parse_flash_cookie, Flash};
use wallet::i18n::Locale;

#[test]
fn flash_roundtrips_through_the_cookie_including_accents() {
    let value = flash_cookie_value(&Flash::error("posição insuficiente para esta venda."));
    let flash = parse_flash_cookie(&value).expect("flash present");
    assert!(flash.is_error());
    assert_eq!(flash.message, "posição insuficiente para esta venda.");
}

#[test]
fn success_kind_survives_the_roundtrip() {
    let value = flash_cookie_value(&Flash::success("depósito realizado."));
    assert!(value.starts_with("s:"));
    let flash = parse_flash_cookie(&value).expect("flash");
    assert!(!flash.is_error());
}

#[test]
fn malformed_cookies_are_dropped() {
    assert!(parse_flash_cookie("").is_none());
    assert!(parse_flash_cookie("sem-dois-pontos").is_none());
    assert!(parse_flash_cookie("x:b2k").is_none());
    assert!(parse_flash_cookie("s:***").is_none());
    // Valid base64 of bytes that are not UTF-8.
    assert!(parse_flash_cookie("e:_w").is_none());
    assert_eq!(parse_flash_cookie("s:b2k").expect("flash").message, "oi");
}

#[test]
fn business_errors_become_messages_and_internal_errors_do_not() {
    let pt = Locale::PtBr.strings();
    let en = Locale::En.strings();

    assert!(business_flash(AppError::InsufficientBalance, &pt).is_ok());
    for t in [&pt, &en] {
        let a = business_flash(AppError::InvalidCredentials, t).unwrap().message;
        let b = business_flash(AppError::UserDoesNotExist, t).unwrap().message;
        assert_eq!(a, b);
    }
    assert_ne!(
        business_flash(AppError::InsufficientBalance, &pt).unwrap().message,
        business_flash(AppError::InsufficientBalance, &en).unwrap().message,
    );
    assert!(business_flash(AppError::Jwt("boom".into()), &pt).is_err());
    assert!(business_flash(AppError::InvalidAmount, &pt).unwrap().is_error());
}
