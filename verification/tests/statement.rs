use wallet::money::Money;
use wallet::statement::{human_datetime, transactions_to_csv};
use wallet::wallet::Transaction;

fn m(mantissa: i128, scale: u32) -> Money {
    Money::new(mantissa, scale).expect("a decimal")
}

// 2026-07-17 12:30 UTC and 12:00 UTC, in Unix seconds.
const AT_1230: i64 = 1_784_291_400;
const AT_1200: i64 = 1_784_289_600;

#[test]
fn csv_export_formats_the_statement_in_ptbr_conventions() {
    let transactions = vec![
        Transaction {
            id: 2,
            kind: "buy".to_string(),
            asset_name: Some("bitcoin \"btc\"".to_string()),
            quantity: Some(m(50, 2)),
            unit_value: Some(m(10025, 2)),
            cash_delta: m(-50125, 3),
            created_at: AT_1230,
        },
        Transaction {
            id: 1,
            kind: "deposit".to_string(),
            asset_name: None,
            quantity: None,
            unit_value: None,
            cash_delta: m(1000, 0),
            created_at: AT_1200,
        },
    ];

    let csv = transactions_to_csv(&transactions);
    let lines: Vec<&str> = csv.lines().collect();

    assert_eq!(lines[0], "data;tipo;ativo;quantidade;preco_unitario;movimento_caixa");
    assert_eq!(
        lines[1],
        "2026-07-17 12:30;compra;\"bitcoin \"\"btc\"\"\";0,5;100,25;-50,125"
    );
    assert_eq!(lines[2], "2026-07-17 12:00;deposito;\"-\";-;-;1000");
}

#[test]
fn an_empty_statement_is_just_the_header() {
    assert_eq!(
        transactions_to_csv(&vec![]),
        "data;tipo;ativo;quantidade;preco_unitario;movimento_caixa\n"
    );
}

#[test]
fn unknown_kinds_are_kept_and_sells_named_in_portuguese() {
    let tx = |kind: &str| Transaction {
        id: 1,
        kind: kind.to_string(),
        asset_name: Some("x".into()),
        quantity: Some(m(1, 0)),
        unit_value: Some(m(1, 0)),
        cash_delta: m(1, 0),
        created_at: 0,
    };
    let csv = transactions_to_csv(&vec![tx("sell"), tx("bonus")]);
    let lines: Vec<&str> = csv.lines().collect();
    assert_eq!(lines[1], "1970-01-01 00:00;venda;\"x\";1;1;1");
    assert_eq!(lines[2], "1970-01-01 00:00;bonus;\"x\";1;1;1");
}

#[test]
fn dates_show_minutes_in_utc() {
    assert_eq!(human_datetime(AT_1230), "2026-07-17 12:30");
    assert_eq!(human_datetime(0), "1970-01-01 00:00");
}
