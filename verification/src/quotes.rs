//! Market quotes that back money: the BRL price of each supported currency
//! is the inverse of the exchange API's BRL-to-currency rate, rounded to the
//! money scale; the catalogue names each price updates; and the cooldown of
//! the manual sync button.
use vstd::prelude::*;

use crate::error::AppError;
use crate::money::{checked_div, decimal_checked_div, less_eq, num, one, one_spec, round_dp, rounded, zero_money, Money};
use crate::text::str_eq;
use crate::wallet::MONEY_SCALE;

verus! {

/// The manual sync button can run again only after this many milliseconds.
pub const MANUAL_SYNC_COOLDOWN_MS: u64 = 30_000;

/// A supported pair: the currency's code in the exchange API, the name the
/// catalogue gets when it has none, and the asset names (lower case) that
/// take its price.
pub struct MarketPair {
    pub code: &'static str,
    pub canonical_name: &'static str,
    pub names: Vec<&'static str>,
}

/// The supported pairs, as `(code, canonical name, names)`.
pub open spec fn market_pair_table() -> Seq<(Seq<char>, Seq<char>, Seq<Seq<char>>)> {
    seq![
        ("USD"@, "dólar"@, seq!["dolar"@, "dólar"@, "usd"@]),
        ("EUR"@, "euro"@, seq!["euro"@, "eur"@]),
        ("BTC"@, "bitcoin"@, seq!["bitcoin"@, "btc"@]),
        ("ETH"@, "ethereum"@, seq!["ethereum"@, "eth"@]),
        ("SOL"@, "solana"@, seq!["solana"@, "sol"@]),
    ]
}

/// A pair as plain text.
pub open spec fn pair_view(p: MarketPair) -> (Seq<char>, Seq<char>, Seq<Seq<char>>) {
    (p.code@, p.canonical_name@, p.names@.map_values(|n: &'static str| n@))
}

fn pair(code: &'static str, canonical_name: &'static str, names: Vec<&'static str>) -> (r: MarketPair)
    ensures
        r.code == code,
        r.canonical_name == canonical_name,
        r.names@ == names@,
{
    MarketPair { code, canonical_name, names }
}

/// The supported pairs: dollar, euro, bitcoin, ether and solana.
pub fn market_pairs() -> (r: Vec<MarketPair>)
    ensures
        r@.map_values(|p: MarketPair| pair_view(p)) == market_pair_table(),
{
    let mut pairs: Vec<MarketPair> = Vec::new();
    pairs.push(pair("USD", "dólar", vec!["dolar", "dólar", "usd"]));
    pairs.push(pair("EUR", "euro", vec!["euro", "eur"]));
    pairs.push(pair("BTC", "bitcoin", vec!["bitcoin", "btc"]));
    pairs.push(pair("ETH", "ethereum", vec!["ethereum", "eth"]));
    pairs.push(pair("SOL", "solana", vec!["solana", "sol"]));
    proof {
        let t = market_pair_table();
        let v = pairs@.map_values(|p: MarketPair| pair_view(p));
        assert(pairs@[0].names@.map_values(|n: &'static str| n@) =~= t[0].2);
        assert(pairs@[1].names@.map_values(|n: &'static str| n@) =~= t[1].2);
        assert(pairs@[2].names@.map_values(|n: &'static str| n@) =~= t[2].2);
        assert(pairs@[3].names@.map_values(|n: &'static str| n@) =~= t[3].2);
        assert(pairs@[4].names@.map_values(|n: &'static str| n@) =~= t[4].2);
        assert(v =~= t);
    }
    pairs
}

/// The rate of the first entry with key `code`.
pub open spec fn rate_for(rates: Seq<(String, Money)>, code: Seq<char>) -> Option<Money>
    decreases rates.len(),
{
    if rates.len() == 0 {
        None
    } else if rates[0].0@ == code {
        Some(rates[0].1)
    } else {
        rate_for(rates.drop_first(), code)
    }
}

/// No code occurs twice among the rates (they are the keys of a JSON
/// object).
pub open spec fn distinct_codes(rates: Seq<(String, Money)>) -> bool {
    forall|i: int, j: int| 0 <= i < j < rates.len() ==> (#[trigger] rates[i]).0@ != (#[trigger] rates[j]).0@
}

/// With distinct codes, the rate of a code is that of its one entry.
pub proof fn lemma_rate_of_entry(rates: Seq<(String, Money)>, code: Seq<char>, i: int)
    requires
        distinct_codes(rates),
        0 <= i < rates.len(),
        rates[i].0@ == code,
    ensures
        rate_for(rates, code) == Some(rates[i].1),
    decreases rates.len(),
{
    if i > 0 {
        let rest = rates.drop_first();
        assert(rates[0].0@ != code) by {
            assert(rates[0].0@ != rates[i].0@);
        }
        assert forall|a: int, b: int| 0 <= a < b < rest.len() implies (#[trigger] rest[a]).0@ != (
        #[trigger] rest[b]).0@ by {
            assert(rest[a] == rates[a + 1] && rest[b] == rates[b + 1]);
        }
        assert(rest[i - 1] == rates[i]);
        lemma_rate_of_entry(rest, code, i - 1);
    }
}

/// The BRL price of one unit of a currency: `1 / rate`, rounded to the
/// money scale (midpoints to even); nothing for a missing or non-positive
/// rate (or where `Decimal` cannot divide).
pub open spec fn brl_price_of(rates: Seq<(String, Money)>, code: Seq<char>) -> Option<Money> {
    match rate_for(rates, code) {
        None => None,
        Some(rate) => if num(rate) <= 0 {
            None
        } else {
            match decimal_checked_div(one_spec(), rate) {
                Some(q) => Some(rounded(q, MONEY_SCALE as nat)),
                None => None,
            }
        },
    }
}

/// The BRL price of one unit of `code`, from the BRL-to-currency rates:
/// the inverse of the rate, rounded to the money scale (a `Decimal`
/// division fills all 28 digits, and a price of scale 28 would make the
/// wallet's sums undecodable). A missing or non-positive rate gives
/// nothing.
pub fn brl_price(rates: &Vec<(String, Money)>, code: &str) -> (r: Option<Money>)
    requires
        forall|i: int| 0 <= i < rates@.len() ==> (#[trigger] rates@[i]).1.wf(),
        distinct_codes(rates@),
    ensures
        r == brl_price_of(rates@, code@),
        forall|i: int|
            0 <= i < rates@.len() && (#[trigger] rates@[i]).0@ == code@ ==> rate_for(rates@, code@) == Some(
                rates@[i].1,
            ),
        r matches Some(p) ==> p.wf() && p.scale <= MONEY_SCALE,
{
    proof {
        assert forall|i: int|
            0 <= i < rates@.len() && (#[trigger] rates@[i]).0@ == code@ implies rate_for(rates@, code@)
            == Some(rates@[i].1) by {
            lemma_rate_of_entry(rates@, code@, i);
        }
    }
    let mut i: usize = 0;
    proof {
        assert(rates@.skip(0) =~= rates@);
    }
    while i < rates.len()
        invariant
            i <= rates@.len(),
            forall|i: int| 0 <= i < rates@.len() ==> (#[trigger] rates@[i]).1.wf(),
            rate_for(rates@, code@) == rate_for(rates@.skip(i as int), code@),
            forall|i: int|
                0 <= i < rates@.len() && (#[trigger] rates@[i]).0@ == code@ ==> rate_for(rates@, code@)
                    == Some(rates@[i].1),
        decreases rates@.len() - i,
    {
        proof {
            let rest = rates@.skip(i as int);
            assert(rest.drop_first() =~= rates@.skip(i + 1));
            assert(rest[0] == rates@[i as int]);
        }
        if str_eq(rates[i].0.as_str(), code) {
            let rate = rates[i].1;
            if !crate::format::positive(&rate) {
                return None;
            }
            let unit = one();
            return match checked_div(&unit, &rate) {
                Some(q) => {
                    let p = round_dp(&q, MONEY_SCALE);
                    proof {
                        crate::money::lemma_rounded_scale(q, MONEY_SCALE as nat);
                    }
                    Some(p)
                },
                None => None,
            };
        }
        i = i + 1;
    }
    proof {
        assert(rates@.skip(i as int).len() == 0);
    }
    None
}

/// The price of each supported pair that the rates can price, in table
/// order, as `(pair index, price)`.
pub open spec fn priced_pairs_of(rates: Seq<(String, Money)>, upto: nat) -> Seq<(usize, Money)>
    decreases upto,
{
    if upto == 0 {
        Seq::empty()
    } else {
        let i = (upto - 1) as nat;
        let before = priced_pairs_of(rates, i);
        match brl_price_of(rates, market_pair_table()[i as int].0) {
            Some(p) => before.push((i as usize, p)),
            None => before,
        }
    }
}

/// The pairs the rates price, with their prices, in table order. A pair
/// missing from the response is skipped; the others go on.
pub fn priced_pairs(rates: &Vec<(String, Money)>, pairs: &Vec<MarketPair>) -> (r: Vec<(usize, Money)>)
    requires
        forall|i: int| 0 <= i < rates@.len() ==> (#[trigger] rates@[i]).1.wf(),
        distinct_codes(rates@),
        pairs@.map_values(|p: MarketPair| pair_view(p)) == market_pair_table(),
    ensures
        r@ == priced_pairs_of(rates@, 5),
        forall|i: int| 0 <= i < r@.len() ==> (#[trigger] r@[i]).0 < 5 && r@[i].1.wf(),
{
    let mut out: Vec<(usize, Money)> = Vec::new();
    let mut i: usize = 0;
    proof {
        assert(pairs@.len() == 5) by {
            assert(pairs@.map_values(|p: MarketPair| pair_view(p)).len() == 5);
        }
    }
    while i < pairs.len()
        invariant
            i <= pairs@.len() == 5,
            forall|i: int| 0 <= i < rates@.len() ==> (#[trigger] rates@[i]).1.wf(),
            distinct_codes(rates@),
            pairs@.map_values(|p: MarketPair| pair_view(p)) == market_pair_table(),
            out@ == priced_pairs_of(rates@, i as nat),
            forall|j: int| 0 <= j < out@.len() ==> (#[trigger] out@[j]).0 < i && out@[j].1.wf(),
        decreases pairs@.len() - i,
    {
        proof {
            assert(pairs@.map_values(|p: MarketPair| pair_view(p))[i as int] == pair_view(pairs@[i as int]));
        }
        match brl_price(rates, pairs[i].code) {
            Some(p) => out.push((i, p)),
            None => {},
        }
        i = i + 1;
    }
    out
}

/// The names a sync round updates and the price each gets: the real
/// itself at one (`real`, `brl`), then every name of each priced pair.
pub open spec fn price_updates_of(priced: Seq<(usize, Money)>) -> Seq<(Seq<char>, Money)>
    decreases priced.len(),
{
    if priced.len() == 0 {
        seq![("real"@, one_spec()), ("brl"@, one_spec())]
    } else {
        let (i, p) = priced.last();
        price_updates_of(priced.drop_last()) + market_pair_table()[i as int].2.map_values(
            |n: Seq<char>| (n, p),
        )
    }
}

/// The `(name, price)` updates of a sync round, from the priced pairs.
pub fn price_updates(priced: &Vec<(usize, Money)>, pairs: &Vec<MarketPair>) -> (r: Vec<(&'static str, Money)>)
    requires
        pairs@.map_values(|p: MarketPair| pair_view(p)) == market_pair_table(),
        forall|i: int| 0 <= i < priced@.len() ==> (#[trigger] priced@[i]).0 < 5,
    ensures
        r@.map_values(|u: (&'static str, Money)| (u.0@, u.1)) == price_updates_of(priced@),
{
    proof {
        assert(pairs@.len() == 5) by {
            assert(pairs@.map_values(|p: MarketPair| pair_view(p)).len() == 5);
        }
    }
    let mut out: Vec<(&'static str, Money)> = Vec::new();
    out.push(("real", one()));
    out.push(("brl", one()));
    proof {
        assert(priced@.take(0) =~= Seq::<(usize, Money)>::empty());
        assert(out@.map_values(|u: (&'static str, Money)| (u.0@, u.1)) =~= price_updates_of(
            priced@.take(0),
        ));
    }
    let mut k: usize = 0;
    while k < priced.len()
        invariant
            k <= priced@.len(),
            pairs@.len() == 5,
            pairs@.map_values(|p: MarketPair| pair_view(p)) == market_pair_table(),
            forall|i: int| 0 <= i < priced@.len() ==> (#[trigger] priced@[i]).0 < 5,
            out@.map_values(|u: (&'static str, Money)| (u.0@, u.1)) == price_updates_of(
                priced@.take(k as int),
            ),
        decreases priced@.len() - k,
    {
        let (i, p) = priced[k];
        let names = &pairs[i].names;
        let ghost before = out@;
        proof {
            assert(pairs@.map_values(|q: MarketPair| pair_view(q))[i as int] == pair_view(pairs@[i as int]));
        }
        let mut j: usize = 0;
        while j < names.len()
            invariant
                j <= names@.len(),
                out@.len() == before.len() + j,
                out@.take(before.len() as int) == before,
                forall|t: int| 0 <= t < j ==> (#[trigger] out@[before.len() + t]) == (names@[t], p),
            decreases names@.len() - j,
        {
            out.push((names[j], p));
            proof {
                assert(out@.take(before.len() as int) =~= before);
            }
            j = j + 1;
        }
        proof {
            let pre = priced@.take(k as int);
            let post = priced@.take(k + 1);
            assert(post.drop_last() =~= pre);
            assert(post.last() == (i, p));
            let added = market_pair_table()[i as int].2.map_values(|n: Seq<char>| (n, p));
            assert(names@.map_values(|n: &'static str| n@) == market_pair_table()[i as int].2);
            let v = out@.map_values(|u: (&'static str, Money)| (u.0@, u.1));
            let b = before.map_values(|u: (&'static str, Money)| (u.0@, u.1));
            assert forall|t: int| 0 <= t < v.len() implies v[t] == (b + added)[t] by {
                if t < before.len() {
                    assert(out@[t] == out@.take(before.len() as int)[t]);
                } else {
                    assert(out@[before.len() + (t - before.len())] == (names@[t - before.len()], p));
                }
            }
            assert(v =~= b + added);
        }
        k = k + 1;
    }
    proof {
        assert(priced@.take(priced@.len() as int) =~= priced@);
    }
    out
}

/// Whether a sync may run now: the manual button waits out the cooldown
/// after the previous round; the scheduled job does not.
pub open spec fn sync_allowed(respect_cooldown: bool, since_last_ms: Option<u64>) -> bool {
    !(respect_cooldown && (since_last_ms matches Some(e) && e < MANUAL_SYNC_COOLDOWN_MS))
}

/// Refuses a manual sync that comes too soon after the previous round.
pub fn check_sync_cooldown(respect_cooldown: bool, since_last_ms: Option<u64>) -> (r: Result<(), AppError>)
    ensures
        sync_allowed(respect_cooldown, since_last_ms) ==> r is Ok,
        !sync_allowed(respect_cooldown, since_last_ms) ==> r == Err::<(), AppError>(
            AppError::QuoteSyncTooSoon,
        ),
{
    if respect_cooldown {
        if let Some(elapsed) = since_last_ms {
            if elapsed < MANUAL_SYNC_COOLDOWN_MS {
                return Err(AppError::QuoteSyncTooSoon);
            }
        }
    }
    Ok(())
}

/// A sync round sets every name of each priced pair to that pair's price.
pub proof fn law_each_name_gets_its_pairs_price(priced: Seq<(usize, Money)>, k: int, j: int)
    requires
        0 <= k < priced.len(),
        priced[k].0 < 5,
        0 <= j < market_pair_table()[priced[k].0 as int].2.len(),
    ensures
        price_updates_of(priced).contains((market_pair_table()[priced[k].0 as int].2[j], priced[k].1)),
    decreases priced.len(),
{
    let x = (market_pair_table()[priced[k].0 as int].2[j], priced[k].1);
    let pre = price_updates_of(priced.drop_last());
    let (i, p) = priced.last();
    let tail = market_pair_table()[i as int].2.map_values(|n: Seq<char>| (n, p));
    assert(price_updates_of(priced) == pre + tail);
    if k == priced.len() - 1 {
        assert((pre + tail)[pre.len() + j] == x);
    } else {
        assert(priced.drop_last()[k] == priced[k]);
        law_each_name_gets_its_pairs_price(priced.drop_last(), k, j);
        let w = choose|w: int| 0 <= w < pre.len() && pre[w] == x;
        assert((pre + tail)[w] == x);
    }
}

/// A sync round always sets the real itself (`real`, `brl`) to one.
pub proof fn law_the_real_is_worth_one(priced: Seq<(usize, Money)>)
    ensures
        price_updates_of(priced).contains(("real"@, one_spec())),
        price_updates_of(priced).contains(("brl"@, one_spec())),
    decreases priced.len(),
{
    if priced.len() == 0 {
        assert(price_updates_of(priced)[0] == ("real"@, one_spec()));
        assert(price_updates_of(priced)[1] == ("brl"@, one_spec()));
    } else {
        law_the_real_is_worth_one(priced.drop_last());
        let pre = price_updates_of(priced.drop_last());
        let (i, p) = priced.last();
        let tail = market_pair_table()[i as int].2.map_values(|n: Seq<char>| (n, p));
        let a = choose|w: int| 0 <= w < pre.len() && pre[w] == ("real"@, one_spec());
        let b = choose|w: int| 0 <= w < pre.len() && pre[w] == ("brl"@, one_spec());
        assert((pre + tail)[a] == pre[a]);
        assert((pre + tail)[b] == pre[b]);
    }
}

/// Every update of a sync round is the real at one, or a name of a priced
/// pair at that pair's price: nothing else is set.
pub proof fn law_updates_come_from_priced_pairs(priced: Seq<(usize, Money)>, w: int)
    requires
        forall|t: int| 0 <= t < priced.len() ==> (#[trigger] priced[t]).0 < 5,
        0 <= w < price_updates_of(priced).len(),
    ensures
        price_updates_of(priced)[w] == ("real"@, one_spec()) || price_updates_of(priced)[w] == (
            "brl"@,
            one_spec(),
        ) || exists|k: int, j: int|
            #![trigger priced[k], market_pair_table()[priced[k].0 as int].2[j]]
            0 <= k < priced.len() && 0 <= j < market_pair_table()[priced[k].0 as int].2.len()
                && price_updates_of(priced)[w] == (market_pair_table()[priced[k].0 as int].2[j], priced[k].1),
    decreases priced.len(),
{
    if priced.len() > 0 {
        let pre = price_updates_of(priced.drop_last());
        let (i, p) = priced.last();
        let tail = market_pair_table()[i as int].2.map_values(|n: Seq<char>| (n, p));
        assert(price_updates_of(priced) == pre + tail);
        let last = priced.len() - 1;
        assert(priced[last] == (i, p));
        if w < pre.len() {
            assert(forall|t: int| 0 <= t < priced.drop_last().len() ==> #[trigger] priced.drop_last()[t] == priced[t]);
            law_updates_come_from_priced_pairs(priced.drop_last(), w);
            assert((pre + tail)[w] == pre[w]);
            let d = priced.drop_last();
            if exists|k: int, j: int|
                #![trigger d[k], market_pair_table()[d[k].0 as int].2[j]]
                0 <= k < d.len() && 0 <= j < market_pair_table()[d[k].0 as int].2.len()
                    && pre[w] == (market_pair_table()[d[k].0 as int].2[j], d[k].1)
            {
                let (k, j) = choose|k: int, j: int|
                    #![trigger d[k], market_pair_table()[d[k].0 as int].2[j]]
                    0 <= k < d.len() && 0 <= j < market_pair_table()[d[k].0 as int].2.len()
                        && pre[w] == (market_pair_table()[d[k].0 as int].2[j], d[k].1);
                assert(priced.drop_last()[k] == priced[k]);
                assert(price_updates_of(priced)[w] == (market_pair_table()[priced[k].0 as int].2[j], priced[k].1));
            }
        } else {
            let j = w - pre.len();
            assert((pre + tail)[w] == tail[j]);
            assert(price_updates_of(priced)[w] == (market_pair_table()[priced[last].0 as int].2[j], priced[last].1));
        }
    }
}

} // verus!
