use wallet::market::{axis_offsets, axis_ticks, is_down, is_up, rank_order, Coin, Range, Snapshot};
use wallet::money::Money;

fn m(mantissa: i128, scale: u32) -> Money {
    Money::new(mantissa, scale).expect("a decimal")
}

fn coin(id: &str, symbol: &str, name: &str, price: Money) -> Coin {
    let zero = m(0, 0);
    Coin {
        id: id.to_string(),
        rank: 1,
        symbol: symbol.to_string(),
        name: name.to_string(),
        price,
        change_1h: zero,
        change_24h: zero,
        change_7d: zero,
        market_cap: zero,
        volume_24h: zero,
        high_24h: m(330_000, 0),
        low_24h: m(320_000, 0),
        ath: zero,
        ath_change_pct: zero,
        circulating_supply: zero,
    }
}

#[test]
fn janela_de_24h_e_o_rabo_da_serie_semanal() {
    assert_eq!(Range::Week.window_start(168), 0);
    assert_eq!(Range::Day.window_start(168), 143);
    assert_eq!(Range::Day.window_start(2), 0);
    assert_eq!(Range::from_tag("24h"), Some(Range::Day));
    assert_eq!(Range::from_tag("7d"), Some(Range::Week));
    assert_eq!(Range::from_tag("30d"), None);
    assert_eq!(Range::default().tag(), "7d");
}

#[test]
fn window_tags_round_trip() {
    for r in [Range::Day, Range::Week] {
        assert_eq!(Range::from_tag(r.tag()), Some(r));
    }
    assert!(Range::Day.is_day() && !Range::Day.is_week());
    assert!(Range::Week.is_week() && !Range::Week.is_day());
}

#[test]
fn medidor_da_faixa_de_24h_fica_dentro_do_viewbox() {
    let mut c = coin("bitcoin", "BTC", "Bitcoin", m(325_000, 0));
    assert_eq!(c.trading_range_x().as_deref(), Some("300.0"));
    c.price = m(400_000, 0);
    assert_eq!(c.trading_range_x().as_deref(), Some("590.0"));
    c.price = m(1, 0);
    assert_eq!(c.trading_range_x().as_deref(), Some("10.0"));
    c.low_24h = m(0, 0);
    assert!(c.trading_range_x().is_none());
}

#[test]
fn no_marker_without_a_published_range() {
    let mut c = coin("bitcoin", "BTC", "Bitcoin", m(325_000, 0));
    c.high_24h = c.low_24h;
    assert!(c.trading_range_x().is_none());
}

#[test]
fn selecao_cai_na_primeira_do_ranking_quando_o_id_nao_existe() {
    let snapshot = Snapshot {
        coins: vec![
            coin("bitcoin", "BTC", "Bitcoin", m(1, 0)),
            coin("ethereum", "ETH", "Ethereum", m(2, 0)),
        ],
        updated_at: None,
        refresh_failed: false,
    };
    assert_eq!(snapshot.select(Some("ethereum")).expect("coin").id, "ethereum");
    assert_eq!(snapshot.select(Some("nao-existe")).expect("coin").id, "bitcoin");
    assert_eq!(snapshot.select(None).expect("coin").id, "bitcoin");
    assert!(Snapshot::default().select(Some("bitcoin")).is_none());
    assert!(Snapshot::default().is_empty());
    assert!(!snapshot.is_empty());
}

#[test]
fn busca_casa_ticker_e_nome() {
    let c = coin("bitcoin", "BTC", "Bitcoin", m(1, 0));
    assert!(c.matches("btc"));
    assert!(c.matches("bitcoin"));
    assert!(c.matches("coin"));
    assert!(!c.matches("ethereum"));
}

#[test]
fn the_time_axis_splits_the_window_evenly() {
    // A day: 25 samples, hourly labels, marks 24, 18, 12, 6 and 0 hours back.
    assert_eq!(axis_offsets(25), (true, vec![24, 18, 12, 6, 0]));
    // A week: 168 samples, daily labels.
    assert_eq!(axis_offsets(168), (false, vec![167, 126, 84, 42, 0]));
    assert_eq!(axis_offsets(2), (true, vec![1, 1, 1, 1, 0]));
}

#[test]
fn trend_needs_a_signed_change() {
    assert!(is_up(&Some(m(25, 1))));
    assert!(is_down(&Some(m(-3, 0))));
    assert!(!is_up(&Some(m(0, 0))) && !is_down(&Some(m(0, 0))));
    assert!(!is_up(&None) && !is_down(&None));
}

#[test]
fn ranking_order_is_stable() {
    assert_eq!(rank_order(&vec![3, 1, 2]), vec![1, 2, 0]);
    assert_eq!(rank_order(&vec![2, 1, 2, 1]), vec![1, 3, 0, 2]);
    assert_eq!(rank_order(&vec![i64::MAX, 5]), vec![1, 0]);
    assert_eq!(rank_order(&vec![]), Vec::<usize>::new());
}

#[test]
fn a_day_window_is_labelled_by_the_hour() {
    // 2026-07-28 15:00 UTC; the day window holds 25 hourly samples.
    let end = 1_785_250_800;
    assert_eq!(
        axis_ticks(25, Some(end)),
        vec!["15:00", "21:00", "03:00", "09:00", "15:00"]
    );
    // 2026-07-17 12:30 UTC, half a day of samples.
    assert_eq!(
        axis_ticks(13, Some(1_784_291_400)),
        vec!["00:30", "03:30", "06:30", "09:30", "12:30"]
    );
}

#[test]
fn a_week_window_is_labelled_by_the_date() {
    // 168 hourly samples: seven days back from 2026-07-28 15:00 UTC.
    let end = 1_785_250_800;
    assert_eq!(
        axis_ticks(168, Some(end)),
        vec!["21/07", "23/07", "25/07", "26/07", "28/07"]
    );
}

#[test]
fn no_time_axis_before_the_first_refresh() {
    assert!(axis_ticks(169, None).is_empty());
    assert!(axis_ticks(0, None).is_empty());
}
