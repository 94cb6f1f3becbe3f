use wallet::error::AppError;
use wallet::money::Money;
use wallet::pages::{counts_as_failed_login, operation_outcome, statement_page, OperationFeedback, WalletAction};
use wallet::i18n::Locale;
use wallet::flash::Flash;
use wallet::wallet::{
    check_funds, check_positive_amount, equity_summary, has_next_page, page_offset, percent_of,
    plan_sell, tradable_assets, trade_total, validated_asset_name, validated_unit_value, Asset,
    SellStep,
};

fn m(mantissa: i128, scale: u32) -> Money {
    Money::new(mantissa, scale).expect("a decimal")
}

fn same(a: Money, b: Money) -> bool {
    a.normalize() == b.normalize()
}

#[test]
fn next_page_math_covers_the_edges() {
    assert!(has_next_page(0, 25, 27));
    assert!(!has_next_page(25, 2, 27));
    assert!(!has_next_page(0, 25, 25));
    assert!(!has_next_page(0, 0, 0));
}

#[test]
fn pages_start_at_one_and_skip_whole_pages() {
    assert_eq!(page_offset(0), (1, 0));
    assert_eq!(page_offset(1), (1, 0));
    assert_eq!(page_offset(2), (2, 25));
    assert_eq!(page_offset(u32::MAX), (u32::MAX, (u32::MAX as i64 - 1) * 25));
    let p = statement_page(3);
    assert_eq!((p.page, p.offset, p.has_prev), (3, 50, true));
    assert!(!statement_page(0).has_prev);
}

#[test]
fn asset_creation_rejects_invalid_input() {
    assert_eq!(validated_asset_name("".to_string()), Err(AppError::InvalidAssetName));
    assert_eq!(validated_asset_name("   ".to_string()), Err(AppError::InvalidAssetName));
    assert_eq!(validated_unit_value(m(-1, 0)), Err(AppError::NegativeUnitValue));
    assert_eq!(validated_unit_value(m(0, 0)), Ok(m(0, 0)));
}

#[test]
fn asset_name_is_trimmed_on_write() {
    assert_eq!(validated_asset_name("  bitcoin  ".to_string()), Ok("bitcoin".to_string()));
}

#[test]
fn deposit_rejects_non_positive_amounts() {
    assert_eq!(check_positive_amount(&m(0, 0)), Err(AppError::InvalidAmount));
    assert_eq!(check_positive_amount(&m(-100, 2)), Err(AppError::InvalidAmount));
    assert_eq!(check_positive_amount(&m(1, 8)), Ok(()));
}

#[test]
fn buying_costs_price_times_quantity_and_needs_the_balance() {
    let cost = trade_total(&m(10, 0), &m(3, 0)).expect("fits");
    assert!(same(cost, m(30, 0)));
    assert_eq!(check_funds(&m(100, 0), &cost), Ok(()));
    assert_eq!(check_funds(&m(2999, 2), &cost), Err(AppError::InsufficientBalance));
    assert_eq!(check_funds(&m(30, 0), &cost), Ok(()));
    // 1.5 units at 0.01: 0.015, exact.
    assert!(same(trade_total(&m(1, 2), &m(15, 1)).unwrap(), m(15, 3)));
}

#[test]
fn selling_checks_the_position() {
    assert_eq!(plan_sell(None, &m(1, 0)), Err(AppError::InsufficientHoldings));
    assert_eq!(plan_sell(Some(m(5, 1)), &m(1, 0)), Err(AppError::InsufficientHoldings));
    assert_eq!(plan_sell(Some(m(100, 2)), &m(1, 0)), Ok(SellStep::Close));
    assert_eq!(plan_sell(Some(m(10, 0)), &m(3, 0)), Ok(SellStep::Reduce));
}

#[test]
fn only_quoted_assets_are_offered_for_trade() {
    let assets = vec![
        Asset { id: 1, name: "bitcoin".into(), unit_value: m(100, 0) },
        Asset { id: 2, name: "sem cotação".into(), unit_value: m(0, 0) },
        Asset { id: 3, name: "ethereum".into(), unit_value: m(5, 1) },
    ];
    let ids: Vec<i64> = tradable_assets(assets).iter().map(|a| a.id).collect();
    assert_eq!(ids, vec![1, 3]);
}

#[test]
fn percent_change_is_relative_to_the_base() {
    assert!(same(percent_of(&m(50, 0), &m(100, 0)).unwrap(), m(50, 0)));
    assert!(same(percent_of(&m(-50, 0), &m(200, 0)).unwrap(), m(-25, 0)));
    assert!(same(percent_of(&m(0, 0), &m(50, 0)).unwrap(), m(0, 0)));
    assert_eq!(percent_of(&m(10, 0), &m(0, 0)), None);
}

#[test]
fn equity_summary_reports_range_latest_and_change() {
    let s = equity_summary(&vec![m(100, 0), m(200, 0), m(150, 0)]).expect("summary");
    assert!(same(s.min_value, m(100, 0)));
    assert!(same(s.max_value, m(200, 0)));
    assert!(same(s.latest_value, m(150, 0)));
    assert!(same(s.delta_pct.unwrap(), m(50, 0)));

    let flat = equity_summary(&vec![m(50, 0), m(50, 0)]).expect("summary");
    assert!(same(flat.delta_pct.unwrap(), m(0, 0)));
    let down = equity_summary(&vec![m(200, 0), m(150, 0)]).expect("summary");
    assert!(same(down.delta_pct.unwrap(), m(-25, 0)));

    assert!(equity_summary(&vec![m(50, 0)]).is_none());
    assert!(equity_summary(&vec![]).is_none());
}

#[test]
fn operation_outcomes_become_banners_or_pass_through() {
    let t = Locale::PtBr.strings();
    let ok = operation_outcome(
        Ok(()),
        OperationFeedback {
            on_success: Flash::success(t.flash_deposit_done),
            error_path: "/deposit",
            error_action: WalletAction::Deposit,
        },
        &t,
    )
    .expect("banner");
    assert_eq!(ok.0.message, "depósito realizado.");
    assert!(!ok.0.is_error());
    assert_eq!((ok.1, ok.2), ("/assets", WalletAction::Overview));

    let refused = operation_outcome(
        Err(AppError::InsufficientBalance),
        OperationFeedback {
            on_success: Flash::success(t.flash_buy_done),
            error_path: "/buy",
            error_action: WalletAction::Buy,
        },
        &t,
    )
    .expect("banner");
    assert!(refused.0.is_error());
    assert_eq!(refused.0.message, t.flash_insufficient_balance);
    assert_eq!((refused.1, refused.2), ("/buy", WalletAction::Buy));

    let internal = operation_outcome(
        Err(AppError::Database("down".into())),
        OperationFeedback {
            on_success: Flash::success(t.flash_sell_done),
            error_path: "/sell",
            error_action: WalletAction::Sell,
        },
        &t,
    );
    assert_eq!(internal.err(), Some(AppError::Database("down".into())));
}

#[test]
fn wallet_forms_know_which_one_is_open() {
    assert!(WalletAction::Deposit.is_deposit());
    assert!(WalletAction::Buy.is_buy() && !WalletAction::Buy.is_deposit());
    assert!(WalletAction::Sell.is_sell());
    assert!(WalletAction::Overview.deposit_is_primary());
    assert!(WalletAction::Deposit.deposit_is_primary());
    assert!(!WalletAction::Sell.deposit_is_primary());
}

#[test]
fn only_credential_failures_feed_the_lockout() {
    assert!(counts_as_failed_login(&AppError::InvalidCredentials));
    assert!(counts_as_failed_login(&AppError::UserDoesNotExist));
    assert!(!counts_as_failed_login(&AppError::Database("x".into())));
}

#[test]
fn a_trade_total_keeps_every_digit() {
    // 0.12345678 × 3 = 0.37037034, at eight places, nothing rounded.
    let total = trade_total(&m(12_345_678, 8), &m(3, 0)).expect("fits");
    assert_eq!(total, Money { magnitude: 37_037_034, negative: false, scale: 8 });
    // A zero factor gives a plain zero.
    let nothing = trade_total(&m(0, 8), &m(3, 0)).expect("fits");
    assert_eq!(nothing, Money { magnitude: 0, negative: false, scale: 0 });
}
