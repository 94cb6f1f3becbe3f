use wallet::i18n::Locale;
use wallet::market::{Coin, Range, Snapshot};
use wallet::money::Money;
use wallet::pages::{market_state, LoginPage};

fn coin(id: &str, symbol: &str, name: &str) -> Coin {
    let zero = Money::new(0, 0).unwrap();
    Coin {
        id: id.into(),
        rank: 1,
        symbol: symbol.into(),
        name: name.into(),
        price: Money::new(1, 0).unwrap(),
        change_1h: zero,
        change_24h: zero,
        change_7d: zero,
        market_cap: zero,
        volume_24h: zero,
        high_24h: zero,
        low_24h: zero,
        ath: zero,
        ath_change_pct: zero,
        circulating_supply: zero,
    }
}

fn snapshot() -> Snapshot {
    Snapshot {
        coins: vec![
            coin("bitcoin", "BTC", "Bitcoin"),
            coin("ethereum", "ETH", "Ethereum"),
            coin("tiny", "TNY", "Tiny Coin"),
        ],
        updated_at: Some(0),
        refresh_failed: false,
    }
}

#[test]
fn the_market_state_keeps_selection_window_and_search_in_every_link() {
    let s = market_state(&snapshot(), Some("bitcoin"), Some("24h"), Some("eth"));
    assert_eq!(s.range, Range::Day);
    assert_eq!(s.query, "eth");
    assert_eq!(s.selected, Some(0));
    assert_eq!(s.listed, vec![1]);
    assert_eq!(s.state_url, "/market?coin=bitcoin&range=24h&q=eth");
    assert_eq!(s.week_url, "/market?coin=bitcoin&range=7d&q=eth");
    assert_eq!(s.day_url, "/market?coin=bitcoin&range=24h&q=eth");
}

#[test]
fn the_market_state_accepts_any_query() {
    let s = market_state(&snapshot(), Some("nao-existe"), Some("periodo-invalido"), None);
    assert_eq!(s.range, Range::Week);
    assert_eq!(s.selected, Some(0));
    assert_eq!(s.listed, vec![0, 1, 2]);
    assert_eq!(s.state_url, "/market?coin=bitcoin&range=7d");

    let s = market_state(&snapshot(), None, None, Some("zzz"));
    assert!(s.listed.is_empty());
    assert_eq!(s.selected, Some(0));

    let s = market_state(&snapshot(), Some("tiny"), Some(""), Some("  COIN "));
    assert_eq!(s.selected, Some(2));
    assert_eq!(s.listed, vec![0, 2]);
    assert_eq!(s.query, "coin");

    let empty = market_state(&Snapshot::default(), Some("bitcoin"), None, Some("%&="));
    assert_eq!(empty.selected, None);
    assert_eq!(empty.state_url, "/market?coin=&range=7d&q=%25%26%3D");
}

#[test]
fn the_login_screen_posts_to_its_own_path() {
    let page = |is_register| LoginPage {
        is_register,
        csrf_token: "tok".to_string(),
        flash: None,
        t: Locale::PtBr.strings(),
    };
    assert_eq!(page(false).form_path(), "/login");
    assert_eq!(page(true).form_path(), "/register");
}
