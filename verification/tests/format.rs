use wallet::format::{
    compact_brl, compact_is_writable, compact_units, decimal_ptbr, format_brl, market_price, money,
    negative, nonnegative, percent, positive, ptbr_digits, ptbr_sign, quantity, try_compact_brl,
};
use wallet::i18n::Locale;
use wallet::money::Money;

fn m(mantissa: i128, scale: u32) -> Money {
    Money::new(mantissa, scale).expect("a decimal")
}

#[test]
fn compact_scale_keeps_big_aggregates_readable() {
    let pt = Locale::PtBr.strings();

    assert_eq!(compact_brl(&m(6512345678901, 0), &pt), "R$ 6,51 tri");
    assert_eq!(compact_brl(&m(1500000000, 0), &pt), "R$ 1,50 bi");
    assert_eq!(compact_brl(&m(9876543210, 2), &pt), "R$ 98,77 mi");
    assert_eq!(compact_brl(&m(12345, 1), &pt), "R$ 1,23 mil");
    assert_eq!(compact_brl(&m(99999, 2), &pt), "R$ 999,99");
    assert_eq!(compact_units(&m(19800000, 0), &pt), "19,80 mi");
    assert_eq!(compact_brl(&m(-2500000, 0), &pt), "- R$ 2,50 mi");
    assert_eq!(compact_brl(&m(0, 0), &pt), "—");

    assert_eq!(compact_brl(&m(1500000000, 0), &Locale::En.strings()), "R$ 1,50 B");
}

#[test]
fn compact_forms_can_always_be_written_for_ordinary_aggregates() {
    let pt = Locale::PtBr.strings();
    assert!(compact_is_writable(&m(6512345678901, 0)));
    assert_eq!(try_compact_brl(&m(98765432, 0), &pt).as_deref(), Some("R$ 98,77 mi"));
}

#[test]
fn ptbr_digits_group_thousands_and_use_a_decimal_comma() {
    assert_eq!(ptbr_digits(&m(32561100, 2), 2, false), "325.611,00");
    assert_eq!(ptbr_digits(&m(1234567891, 3), 2, false), "1.234.567,89");
    assert_eq!(ptbr_digits(&m(-999, 0), 2, false), "999,00");
    assert_eq!(ptbr_digits(&m(0, 0), 2, false), "0,00");
    assert_eq!(ptbr_digits(&m(4125, 8), 8, true), "0,00004125");
    assert_eq!(ptbr_digits(&m(5, 1), 8, true), "0,50");
    assert_eq!(ptbr_digits(&m(1000, 0), 0, false), "1.000,");
}

#[test]
fn money_is_formatted_with_the_sign_before_the_symbol() {
    assert_eq!(money(&m(32561100, 2)), "R$ 325.611,00");
    assert_eq!(money(&m(-100, 2)), "- R$ 1,00");
    assert_eq!(money(&m(1000, 2)), "R$ 10,00");
    assert_eq!(ptbr_sign(&m(-1, 0)), "- ");
    assert_eq!(ptbr_sign(&m(1, 0)), "");
    assert_eq!(format_brl(&m(12345, 4), 2, false), "R$ 1,23");
}

#[test]
fn small_quotes_keep_their_digits() {
    assert_eq!(market_price(&m(4125, 8)), "R$ 0,00004125");
    assert_eq!(market_price(&m(32561100, 2)), "R$ 325.611,00");
    assert_eq!(market_price(&m(1, 0)), "R$ 1,00");
    assert_eq!(market_price(&m(5, 1)), "R$ 0,50");
}

#[test]
fn percentages_drop_the_sign_and_use_a_comma() {
    assert_eq!(percent(&m(250, 2)), "2,50");
    assert_eq!(percent(&m(-3, 0)), "3,00");
    assert_eq!(percent(&m(0, 0)), "0,00");
    assert_eq!(percent(&m(12345, 3)), "12,34");
}

#[test]
fn quantities_and_exports_drop_superfluous_zeros() {
    assert_eq!(quantity(&m(5000, 4)), "0.5");
    assert_eq!(quantity(&m(10, 0)), "10");
    assert_eq!(decimal_ptbr(&m(50, 2)), "0,5");
    assert_eq!(decimal_ptbr(&m(-50125, 3)), "-50,125");
    assert_eq!(decimal_ptbr(&m(1000, 0)), "1000");
    assert_eq!(decimal_ptbr(&m(0, 3)), "0");
}

#[test]
fn signs_are_read_as_numbers() {
    assert!(nonnegative(&m(0, 0)));
    assert!(!positive(&m(0, 0)));
    assert!(positive(&m(1, 8)));
    assert!(negative(&m(-1, 8)));
    assert!(!negative(&m(0, 2)));
}
