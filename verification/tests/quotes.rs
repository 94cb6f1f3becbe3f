use wallet::error::AppError;
use wallet::money::Money;
use wallet::quotes::{brl_price, check_sync_cooldown, market_pairs, price_updates, priced_pairs};

fn m(mantissa: i128, scale: u32) -> Money {
    Money::new(mantissa, scale).expect("a decimal")
}

fn same(a: Money, b: Money) -> bool {
    a.normalize() == b.normalize()
}

#[test]
fn brl_price_inverts_the_rate_and_rejects_the_uninvertible() {
    let rates = vec![("USD".to_string(), m(2, 1)), ("ZERO".to_string(), m(0, 0))];
    assert!(same(brl_price(&rates, "USD").unwrap(), m(5, 0)));
    assert_eq!(brl_price(&rates, "ZERO"), None);
    assert_eq!(brl_price(&rates, "XYZ"), None);
}

#[test]
fn brl_price_caps_the_scale_of_non_terminating_inversions() {
    let rates = vec![("USD".to_string(), m(3, 0)), ("BTC".to_string(), m(29937, 10))];
    for code in ["USD", "BTC"] {
        let price = brl_price(&rates, code).expect("price");
        assert!(price.scale <= 8, "{code}: escala {} > 8", price.scale);
    }
    assert_eq!(brl_price(&rates, "USD"), Some(m(33333333, 8)));
}

#[test]
fn a_negative_rate_gives_no_price() {
    let rates = vec![("EUR".to_string(), m(-2, 1))];
    assert_eq!(brl_price(&rates, "EUR"), None);
}

#[test]
fn a_pair_missing_from_the_response_is_skipped_without_taking_the_others_down() {
    let pairs = market_pairs();
    let rates = vec![("USD".to_string(), m(2, 1)), ("BTC".to_string(), m(1, 6))];
    let priced = priced_pairs(&rates, &pairs);
    let indices: Vec<usize> = priced.iter().map(|(i, _)| *i).collect();
    assert_eq!(indices, vec![0, 2]);
    assert!(same(priced[1].1, m(1000000, 0)));

    let updates = price_updates(&priced, &pairs);
    let names: Vec<&str> = updates.iter().map(|(n, _)| *n).collect();
    assert_eq!(names, vec!["real", "brl", "dolar", "dólar", "usd", "bitcoin", "btc"]);
    assert!(same(updates[0].1, m(1, 0)));
    assert!(same(updates[2].1, m(5, 0)));
    assert!(!names.contains(&"solana"));
}

#[test]
fn the_supported_pairs_are_the_five_currencies() {
    let codes: Vec<&str> = market_pairs().iter().map(|p| p.code).collect();
    assert_eq!(codes, vec!["USD", "EUR", "BTC", "ETH", "SOL"]);
}

#[test]
fn the_manual_sync_waits_out_the_cooldown() {
    assert_eq!(check_sync_cooldown(true, Some(29_999)), Err(AppError::QuoteSyncTooSoon));
    assert_eq!(check_sync_cooldown(true, Some(30_000)), Ok(()));
    assert_eq!(check_sync_cooldown(true, None), Ok(()));
    assert_eq!(check_sync_cooldown(false, Some(0)), Ok(()));
}
