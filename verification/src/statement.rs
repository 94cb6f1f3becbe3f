//! The statement export: the wallet's ledger as a CSV in the pt-BR
//! spreadsheet convention (`;` separator, decimal comma), and the
//! date-time text of the screens.
use vstd::prelude::*;

use time::format_description;
use time::OffsetDateTime;

use crate::format::{comma_decimal_text, decimal_ptbr, dots_to_commas};
use crate::money::{normalized, plain_digits, Money};
use crate::text::{push_str, str_eq};
use crate::wallet::Transaction;
use crate::web::{csv_field, csv_quoted};

verus! {

/// `time`'s `[year]-[month]-[day] [hour]:[minute]` text of the UTC instant
/// `at` (Unix seconds); empty where `time` cannot represent or format it.
pub uninterp spec fn utc_minute_text(at: i64) -> Seq<char>;

/// Formats the UTC instant `at` (Unix seconds) with `time`'s description
/// `[year]-[month]-[day] [hour]:[minute]`.
#[verifier::external_body]
pub(crate) fn utc_minute_stamp(at: i64) -> (r: String)
    ensures
        r@ == utc_minute_text(at),
{
    match (
        OffsetDateTime::from_unix_timestamp(at),
        format_description::parse("[year]-[month]-[day] [hour]:[minute]"),
    ) {
        (Ok(instant), Ok(description)) => instant.format(&description).unwrap_or_default(),
        _ => String::new(),
    }
}

/// Date and time of an instant on the screens (`2026-07-17 12:30`).
pub fn human_datetime(at: i64) -> (r: String)
    ensures
        r@ == utc_minute_text(at),
{
    utc_minute_stamp(at)
}

/// The pt-BR name of a ledger kind in the export; an unknown kind is kept.
pub open spec fn csv_kind(kind: Seq<char>) -> Seq<char> {
    if kind == "deposit"@ {
        "deposito"@
    } else if kind == "buy"@ {
        "compra"@
    } else if kind == "sell"@ {
        "venda"@
    } else {
        kind
    }
}

/// An optional amount in the export: the decimal, or `-`.
pub open spec fn optional_amount_text(v: Option<Money>) -> Seq<char> {
    match v {
        Some(m) => comma_decimal_text(m),
        None => "-"@,
    }
}

/// One line of the export.
pub open spec fn csv_line(tx: Transaction) -> Seq<char> {
    utc_minute_text(tx.created_at) + ";"@ + csv_kind(tx.kind@) + ";"@ + csv_quoted(
        match tx.asset_name {
            Some(n) => n@,
            None => "-"@,
        },
    ) + ";"@ + optional_amount_text(tx.quantity) + ";"@ + optional_amount_text(tx.unit_value)
        + ";"@ + comma_decimal_text(tx.cash_delta) + "\n"@
}

/// The header line of the export.
pub open spec fn csv_header() -> Seq<char> {
    "data;tipo;ativo;quantidade;preco_unitario;movimento_caixa\n"@
}

/// The export of a list of entries, one line each, after the header.
pub open spec fn csv_text(txs: Seq<Transaction>) -> Seq<char>
    decreases txs.len(),
{
    if txs.len() == 0 {
        csv_header()
    } else {
        csv_text(txs.drop_last()) + csv_line(txs.last())
    }
}

/// Every amount of the entry is one a `Decimal` holds.
pub open spec fn transaction_wf(tx: Transaction) -> bool {
    &&& tx.cash_delta.wf()
    &&& (tx.quantity matches Some(q) ==> q.wf())
    &&& (tx.unit_value matches Some(u) ==> u.wf())
}

/// The pt-BR kind label of the export.
fn kind_label(kind: &str) -> (r: String)
    ensures
        r@ == csv_kind(kind@),
{
    if str_eq(kind, "deposit") {
        "deposito".to_string()
    } else if str_eq(kind, "buy") {
        "compra".to_string()
    } else if str_eq(kind, "sell") {
        "venda".to_string()
    } else {
        kind.to_string()
    }
}

/// An optional amount, or `-`.
fn optional_amount(v: &Option<Money>) -> (r: String)
    requires
        v matches Some(m) ==> m.wf(),
    ensures
        r@ == optional_amount_text(*v),
{
    match v {
        Some(m) => decimal_ptbr(m),
        None => "-".to_string(),
    }
}

/// One entry as a line of the export.
fn csv_line_of(tx: &Transaction) -> (r: String)
    requires
        transaction_wf(*tx),
    ensures
        r@ == csv_line(*tx),
{
    let date = utc_minute_stamp(tx.created_at);
    let kind = kind_label(tx.kind.as_str());
    let asset = match &tx.asset_name {
        Some(n) => csv_field(n.as_str()),
        None => csv_field("-"),
    };
    let quantity = optional_amount(&tx.quantity);
    let unit_value = optional_amount(&tx.unit_value);
    let cash = decimal_ptbr(&tx.cash_delta);
    let mut line = date;
    let ghost s0 = line@;
    push_str(&mut line, ";");
    push_str(&mut line, kind.as_str());
    push_str(&mut line, ";");
    let ghost s1 = line@;
    push_str(&mut line, asset.as_str());
    push_str(&mut line, ";");
    let ghost s2 = line@;
    push_str(&mut line, quantity.as_str());
    push_str(&mut line, ";");
    push_str(&mut line, unit_value.as_str());
    push_str(&mut line, ";");
    let ghost s3 = line@;
    push_str(&mut line, cash.as_str());
    push_str(&mut line, "\n");
    proof {
        assert(s1 == s0 + ";"@ + kind@ + ";"@);
        assert(s2 == s1 + asset@ + ";"@);
        assert(s3 == s2 + quantity@ + ";"@ + unit_value@ + ";"@);
        assert(line@ == s3 + cash@ + "\n"@);
        assert(line@ =~= csv_line(*tx));
    }
    line
}

/// The statement as CSV in the pt-BR spreadsheet convention: `;` between
/// fields, decimal comma without superfluous zeros, the asset name quoted
/// (inner quotes doubled), the kind in Portuguese, `-` for what a deposit
/// does not have.
pub fn transactions_to_csv(transactions: &Vec<Transaction>) -> (r: String)
    requires
        forall|i: int| 0 <= i < transactions@.len() ==> transaction_wf(#[trigger] transactions@[i]),
    ensures
        r@ == csv_text(transactions@),
{
    let mut csv = "data;tipo;ativo;quantidade;preco_unitario;movimento_caixa\n".to_string();
    let mut i: usize = 0;
    proof {
        assert(transactions@.take(0) =~= Seq::<Transaction>::empty());
    }
    while i < transactions.len()
        invariant
            i <= transactions@.len(),
            forall|i: int| 0 <= i < transactions@.len() ==> transaction_wf(#[trigger] transactions@[i]),
            csv@ == csv_text(transactions@.take(i as int)),
        decreases transactions@.len() - i,
    {
        let tx = &transactions[i];
        proof {
            assert(transaction_wf(transactions@[i as int]));
        }
        let line = csv_line_of(tx);
        let ghost before = csv@;
        push_str(&mut csv, line.as_str());
        proof {
            let t = transactions@.take(i + 1);
            assert(t.drop_last() =~= transactions@.take(i as int));
            assert(t.last() == transactions@[i as int]);
            assert(csv@ =~= before + csv_line(transactions@[i as int]));
        }
        i = i + 1;
    }
    proof {
        assert(transactions@.take(transactions@.len() as int) =~= transactions@);
    }
    csv
}

} // verus!
