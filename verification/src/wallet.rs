//! The wallet: its records, the rules that every write obeys (asset names,
//! prices, deposits, buys and sells), the statement's pages and the
//! summary of the equity series.
use vstd::prelude::*;

use crate::error::AppError;
use crate::money::{
    checked_div, checked_mul, decimal_checked_div, decimal_checked_mul, eq, exact_product, le, less,
    less_eq, lt, num, same_value, zero, zero_money, Money, MAX_MAGNITUDE, MAX_SCALE,
};
use crate::text::{chars_of, string_of, trim, trim_bounds};

verus! {

/// Every monetary write is rounded to at most this many decimal places.
pub const MONEY_SCALE: u32 = 8;

/// Statement entries per page.
pub const TRANSACTIONS_PAGE_SIZE: i64 = 25;

/// Points of the equity series loaded for the chart.
pub const CHART_POINTS: i64 = 60;

/// The role name of an administrator.
pub const ROLE_ADMIN: &'static str = "admin";

/// A catalogue asset and its current unit price.
pub struct Asset {
    pub id: i64,
    pub name: String,
    pub unit_value: Money,
}

/// The minimal identity of a user (no password hash, no balance).
pub struct UserIdentity {
    pub id: i64,
    pub username: String,
    pub role: String,
}

/// A user row.
pub struct UserRecord {
    pub id: i64,
    pub username: String,
    pub password_hash: String,
    pub balance: Money,
    pub role: String,
}

/// The totals of a wallet.
pub struct WalletSummary {
    pub balance: Money,
    pub holdings_value: Money,
    pub total_value: Money,
    pub total_invested: Money,
    pub total_delta: Money,
}

/// A position in one asset.
pub struct Holding {
    pub id: i64,
    pub name: String,
    pub unit_value: Money,
    pub quantity_owned: Money,
    pub avg_cost: Money,
    pub current_value: Money,
    pub invested_value: Money,
    pub value_delta: Money,
}

/// A point of the equity series; `captured_at` in Unix seconds.
pub struct PortfolioSnapshot {
    pub total_value: Money,
    pub captured_at: i64,
}

/// A statement entry; `created_at` in Unix seconds.
pub struct Transaction {
    pub id: i64,
    pub kind: String,
    pub asset_name: Option<String>,
    pub quantity: Option<Money>,
    pub unit_value: Option<Money>,
    pub cash_delta: Money,
    pub created_at: i64,
}

/// An asset name as stored: trimmed, and never empty.
pub fn validated_asset_name(name: String) -> (r: Result<String, AppError>)
    ensures
        trim(name@).len() == 0 ==> r == Err::<String, AppError>(AppError::InvalidAssetName),
        trim(name@).len() != 0 ==> (r matches Ok(n) && n@ == trim(name@)),
{
    let cs = chars_of(name.as_str());
    let (from, to) = trim_bounds(&cs);
    if from == to {
        return Err(AppError::InvalidAssetName);
    }
    Ok(string_of(&cs, from, to))
}

/// A unit price is never negative (zero is allowed: an asset not quoted yet).
pub fn validated_unit_value(unit_value: Money) -> (r: Result<Money, AppError>)
    requires
        unit_value.wf(),
    ensures
        num(unit_value) < 0 ==> r == Err::<Money, AppError>(AppError::NegativeUnitValue),
        num(unit_value) >= 0 ==> r == Ok::<Money, AppError>(unit_value),
{
    if crate::format::negative(&unit_value) {
        return Err(AppError::NegativeUnitValue);
    }
    Ok(unit_value)
}

/// A deposit, buy or sell amount must be above zero.
pub fn check_positive_amount(amount: &Money) -> (r: Result<(), AppError>)
    requires
        amount.wf(),
    ensures
        num(*amount) <= 0 ==> r == Err::<(), AppError>(AppError::InvalidAmount),
        num(*amount) > 0 ==> r is Ok,
{
    if crate::format::positive(amount) {
        Ok(())
    } else {
        Err(AppError::InvalidAmount)
    }
}

/// The cash a trade moves: unit price times quantity (`None` where the
/// product does not fit a `Decimal`). Nothing is rounded away: where the
/// product's digits and scale fit a `Decimal`, it is exact.
pub fn trade_total(unit_value: &Money, quantity: &Money) -> (r: Option<Money>)
    requires
        unit_value.wf(),
        quantity.wf(),
    ensures
        r == decimal_checked_mul(*unit_value, *quantity),
        r matches Some(t) ==> t.wf(),
        (unit_value.magnitude == 0 || quantity.magnitude == 0) ==> r == Some(zero_money()),
        (unit_value.magnitude != 0 && quantity.magnitude != 0
            && unit_value.magnitude * quantity.magnitude <= MAX_MAGNITUDE
            && unit_value.scale + quantity.scale <= MAX_SCALE) ==> r == Some(
            exact_product(*unit_value, *quantity),
        ),
{
    checked_mul(unit_value, quantity)
}

/// A buy needs a balance that covers its cost.
pub fn check_funds(balance: &Money, cost: &Money) -> (r: Result<(), AppError>)
    requires
        balance.wf(),
        cost.wf(),
    ensures
        less(*balance, *cost) ==> r == Err::<(), AppError>(AppError::InsufficientBalance),
        !less(*balance, *cost) ==> r is Ok,
{
    if lt(balance, cost) {
        Err(AppError::InsufficientBalance)
    } else {
        Ok(())
    }
}

/// What a sell does to the position.
#[derive(Clone, Copy, Debug, PartialEq, Eq, Structural)]
pub enum SellStep {
    /// Everything is sold: the position is closed.
    Close,
    /// Some units remain.
    Reduce,
}

/// The position after a sell: selling more than is held (or holding
/// nothing) is refused; selling exactly what is held closes the position.
pub open spec fn sell_step(held: Option<Money>, quantity: Money) -> Result<SellStep, AppError> {
    match held {
        None => Err(AppError::InsufficientHoldings),
        Some(h) => if less(h, quantity) {
            Err(AppError::InsufficientHoldings)
        } else if same_value(h, quantity) {
            Ok(SellStep::Close)
        } else {
            Ok(SellStep::Reduce)
        },
    }
}

/// Decides a sell against the units held.
pub fn plan_sell(held: Option<Money>, quantity: &Money) -> (r: Result<SellStep, AppError>)
    requires
        held matches Some(h) ==> h.wf(),
        quantity.wf(),
    ensures
        r == sell_step(held, *quantity),
{
    match held {
        None => Err(AppError::InsufficientHoldings),
        Some(h) => {
            if lt(&h, quantity) {
                Err(AppError::InsufficientHoldings)
            } else if eq(&h, quantity) {
                Ok(SellStep::Close)
            } else {
                Ok(SellStep::Reduce)
            }
        },
    }
}

/// The page shown (at least the first) and how many entries precede it.
pub open spec fn page_window(page: u32) -> (u32, int) {
    let p = if page < 1 { 1u32 } else { page };
    (p, (p - 1) * TRANSACTIONS_PAGE_SIZE)
}

/// The page to show for a requested page number (page 0 is page 1) and
/// the offset of its first entry.
pub fn page_offset(page: u32) -> (r: (u32, i64))
    ensures
        r.0 == page_window(page).0,
        r.1 == page_window(page).1,
        r.0 >= 1,
        r.1 >= 0,
{
    let p = if page < 1 { 1u32 } else { page };
    let offset = ((p - 1) as i64) * TRANSACTIONS_PAGE_SIZE;
    (p, offset)
}

/// Consecutive statement pages follow each other without gap or overlap:
/// each starts where the previous one's entries end.
pub proof fn law_pages_tile_the_statement(page: u32)
    requires
        1 <= page < u32::MAX,
    ensures
        page_window((page + 1) as u32).1 == page_window(page).1 + TRANSACTIONS_PAGE_SIZE,
        page_window(1).1 == 0,
        page_window(0) == page_window(1),
{
}

/// There is a next page when what was shown so far does not cover the
/// total.
pub fn has_next_page(offset: i64, page_len: usize, total: i64) -> (r: bool)
    requires
        0 <= offset,
        offset + page_len <= i64::MAX,
    ensures
        r == (offset + page_len < total),
{
    (offset + page_len as i64) < total
}

/// The catalogue assets that can be bought: those with a price above zero
/// (zero means "not quoted yet"; a trade is never opened for free), in
/// catalogue order.
pub fn tradable_assets(assets: Vec<Asset>) -> (r: Vec<Asset>)
    requires
        forall|i: int| 0 <= i < assets@.len() ==> (#[trigger] assets@[i]).unit_value.wf(),
    ensures
        r@ == assets@.filter(|a: Asset| num(a.unit_value) > 0),
{
    let ghost all = assets@;
    let mut rest = assets;
    let mut reversed: Vec<Asset> = Vec::new();
    while rest.len() > 0
        invariant
            rest@.len() + reversed@.len() == all.len(),
            rest@ == all.take(rest@.len() as int),
            reversed@ == all.skip(rest@.len() as int).reverse(),
        decreases rest@.len(),
    {
        let ghost n = rest@.len();
        let a = rest.pop().unwrap();
        reversed.push(a);
        proof {
            assert(rest@ =~= all.take(n - 1));
            assert(a == all[n - 1]);
            assert(all.skip(n - 1) =~= seq![a] + all.skip(n as int));
            assert(reversed@ =~= all.skip(n - 1).reverse());
        }
    }
    let mut out: Vec<Asset> = Vec::new();
    while reversed.len() > 0
        invariant
            reversed@ == all.skip(all.len() - reversed@.len()).reverse(),
            reversed@.len() <= all.len(),
            forall|i: int| 0 <= i < all.len() ==> (#[trigger] all[i]).unit_value.wf(),
            out@ == all.take(all.len() - reversed@.len()).filter(|a: Asset| num(a.unit_value) > 0),
        decreases reversed@.len(),
    {
        let ghost k = all.len() - reversed@.len();
        let a = reversed.pop().unwrap();
        proof {
            assert(a == all[k]);
            assert(reversed@ =~= all.skip(k + 1).reverse());
            assert(all.take(k + 1) =~= all.take(k).push(a));
            assert(all.take(k).push(a).filter(|a: Asset| num(a.unit_value) > 0) == (if num(
                a.unit_value,
            ) > 0 {
                all.take(k).filter(|a: Asset| num(a.unit_value) > 0).push(a)
            } else {
                all.take(k).filter(|a: Asset| num(a.unit_value) > 0)
            })) by {
                reveal(Seq::filter);
                assert(all.take(k).push(a).drop_last() =~= all.take(k));
            }
        }
        if crate::format::positive(&a.unit_value) {
            out.push(a);
        }
    }
    proof {
        assert(all.take(all.len() as int) =~= all);
    }
    out
}

/// `delta` as a percentage of `base`; nothing for a zero base (or where the
/// `Decimal` operations give nothing).
pub open spec fn percent_change(delta: Money, base: Money) -> Option<Money> {
    if num(base) == 0 {
        None
    } else {
        match decimal_checked_div(delta, base) {
            Some(q) => decimal_checked_mul(q, hundred()),
            None => None,
        }
    }
}

/// One hundred.
pub open spec fn hundred() -> Money {
    Money { magnitude: 100, negative: false, scale: 0 }
}

/// The variation `delta` as a percentage of `base`: `delta / base * 100`.
pub fn percent_of(delta: &Money, base: &Money) -> (r: Option<Money>)
    requires
        delta.wf(),
        base.wf(),
    ensures
        r == percent_change(*delta, *base),
        r matches Some(p) ==> p.wf(),
{
    if base.is_zero() {
        return None;
    }
    let h = Money { magnitude: 100, negative: false, scale: 0 };
    match checked_div(delta, base) {
        Some(q) => checked_mul(&q, &h),
        None => None,
    }
}

/// What the equity chart reports beside its drawing.
pub struct EquitySummary {
    pub min_value: Money,
    pub max_value: Money,
    pub latest_value: Money,
    /// The variation from the first point to the last, in %.
    pub delta_pct: Option<Money>,
}

/// `m` is a least value of `s` (by number).
pub open spec fn is_min_of(s: Seq<Money>, m: Money) -> bool {
    &&& exists|i: int| 0 <= i < s.len() && s[i] == m
    &&& forall|i: int| 0 <= i < s.len() ==> less_eq(m, #[trigger] s[i])
}

/// `m` is a greatest value of `s` (by number).
pub open spec fn is_max_of(s: Seq<Money>, m: Money) -> bool {
    &&& exists|i: int| 0 <= i < s.len() && s[i] == m
    &&& forall|i: int| 0 <= i < s.len() ==> less_eq(#[trigger] s[i], m)
}

/// The summary of an equity series of at least two points (one point is no
/// line, and gets no chart): least and greatest value, the latest one, and
/// the change from the first to the latest in %. Nothing where `Decimal`
/// cannot subtract the first value from the latest.
pub fn equity_summary(values: &Vec<Money>) -> (r: Option<EquitySummary>)
    requires
        forall|i: int| 0 <= i < values@.len() ==> (#[trigger] values@[i]).wf(),
    ensures
        r is None <==> (values@.len() < 2 || crate::money::decimal_checked_sub(
            values@.last(),
            values@[0],
        ) is None),
        (values@.len() >= 2 && values@.last().scale == values@[0].scale && num(values@.last())
            - num(values@[0]) <= crate::money::MAX_MAGNITUDE && num(values@[0]) - num(values@.last())
            <= crate::money::MAX_MAGNITUDE) ==> r is Some,
        r matches Some(s) ==> {
            &&& is_min_of(values@, s.min_value)
            &&& is_max_of(values@, s.max_value)
            &&& s.latest_value == values@.last()
            &&& s.delta_pct == percent_change(
                crate::money::decimal_checked_sub(values@.last(), values@[0]).unwrap(),
                values@[0],
            )
            &&& s.delta_pct matches Some(p) ==> p.wf()
        },
{
    let n = values.len();
    if n < 2 {
        return None;
    }
    let mut min = values[0];
    let mut max = values[0];
    proof {
        crate::money::lemma_order_refl(values@[0]);
    }
    let mut i: usize = 1;
    while i < n
        invariant
            1 <= i <= n == values@.len(),
            forall|j: int| 0 <= j < values@.len() ==> (#[trigger] values@[j]).wf(),
            exists|j: int| 0 <= j < i && values@[j] == min,
            exists|j: int| 0 <= j < i && values@[j] == max,
            forall|j: int| 0 <= j < i ==> less_eq(min, #[trigger] values@[j]),
            forall|j: int| 0 <= j < i ==> less_eq(#[trigger] values@[j], max),
        decreases n - i,
    {
        let v = values[i];
        if lt(&v, &min) {
            proof {
                assert forall|j: int| 0 <= j < i + 1 implies less_eq(v, #[trigger] values@[j]) by {
                    if j < i {
                        crate::money::lemma_order_trans_lt_le(v, min, values@[j]);
                    } else {
                        crate::money::lemma_order_refl(v);
                    }
                }
            }
            min = v;
        }
        if lt(&max, &v) {
            proof {
                assert forall|j: int| 0 <= j < i + 1 implies less_eq(#[trigger] values@[j], v) by {
                    if j < i {
                        crate::money::lemma_order_trans_le_lt(values@[j], max, v);
                    } else {
                        crate::money::lemma_order_refl(v);
                    }
                }
            }
            max = v;
        }
        proof {
            assert(less_eq(min, values@[i as int]));
            assert(less_eq(values@[i as int], max));
        }
        i = i + 1;
    }
    let first = values[0];
    let latest = values[n - 1];
    match crate::money::checked_sub(&latest, &first) {
        Some(delta) => {
            let pct = percent_of(&delta, &first);
            Some(EquitySummary { min_value: min, max_value: max, latest_value: latest, delta_pct: pct })
        },
        None => None,
    }
}

} // verus!
