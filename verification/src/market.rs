//! The market screen: the chart window, the coins as the screen reads them,
//! the search over them, the selection, the 24 h range marker and the time
//! axis. The quotes are informative only: nothing here moves money.
use vstd::prelude::*;

use crate::money::{
    checked_add, checked_div, checked_mul, checked_sub, decimal_checked_add, decimal_checked_div,
    decimal_checked_mul, decimal_checked_sub, fixed_digits, fixed_text, less, less_eq, lt, minus_sign,
    num, one, one_spec, zero, zero_money, Money, digit_char,
};
use crate::text::{chars_of, contains, contains_chars, lowercase, push_char, str_eq, to_lowercase};

use time::OffsetDateTime;

verus! {

/// Hourly samples that close one day (25 samples span 24 intervals).
pub const HOURS_IN_DAY: usize = 24;

/// Side margin of the range meter, in `viewBox` units.
pub const METER_PAD: i64 = 10;

/// Width of the range meter's `viewBox`.
pub const METER_W: i64 = 600;

/// Time marks under the chart.
pub const AXIS_TICKS: usize = 5;

/// The window of the price chart. Both come out of the same weekly hourly
/// series: the day is its tail.
#[derive(Clone, Copy, Debug, PartialEq, Eq, Structural)]
pub enum Range {
    /// The last 24 hours.
    Day,
    /// The last 7 days: the whole series.
    Week,
}

/// The window a query-string tag names.
pub open spec fn range_of_tag(tag: Seq<char>) -> Option<Range> {
    if tag == seq!['2', '4', 'h'] {
        Some(Range::Day)
    } else if tag == seq!['7', 'd'] {
        Some(Range::Week)
    } else {
        None
    }
}

/// The canonical query-string tag of a window.
pub open spec fn range_tag(r: Range) -> Seq<char> {
    match r {
        Range::Day => seq!['2', '4', 'h'],
        Range::Week => seq!['7', 'd'],
    }
}

/// Where the window starts in a series of `len` hourly samples.
pub open spec fn window_start_of(r: Range, len: nat) -> nat {
    match r {
        Range::Day => if len > HOURS_IN_DAY + 1 { (len - (HOURS_IN_DAY + 1)) as nat } else { 0 },
        Range::Week => 0,
    }
}

impl Default for Range {
    /// The week, the whole series.
    fn default() -> (r: Range)
        ensures
            r == Range::Week,
    {
        Range::Week
    }
}

impl Range {
    /// `24h` is the day, `7d` the week; anything else is no window.
    pub fn from_tag(tag: &str) -> (r: Option<Range>)
        ensures
            r == range_of_tag(tag@),
    {
        proof {
            reveal_strlit("24h");
            reveal_strlit("7d");
            assert("24h"@ =~= seq!['2', '4', 'h']);
            assert("7d"@ =~= seq!['7', 'd']);
        }
        if str_eq(tag, "24h") {
            Some(Range::Day)
        } else if str_eq(tag, "7d") {
            Some(Range::Week)
        } else {
            None
        }
    }

    /// The canonical tag, which `from_tag` takes back.
    pub fn tag(self) -> (r: &'static str)
        ensures
            r@ == range_tag(self),
    {
        match self {
            Range::Day => {
                proof {
                    reveal_strlit("24h");
                }
                "24h"
            },
            Range::Week => {
                proof {
                    reveal_strlit("7d");
                }
                "7d"
            },
        }
    }

    pub fn is_day(self) -> (r: bool)
        ensures
            r == (self == Range::Day),
    {
        match self {
            Range::Day => true,
            Range::Week => false,
        }
    }

    pub fn is_week(self) -> (r: bool)
        ensures
            r == (self == Range::Week),
    {
        match self {
            Range::Day => false,
            Range::Week => true,
        }
    }

    /// The index where this window starts in a series of `len` samples: the
    /// day is the last 25 samples (or all of a shorter series), the week is
    /// all of it.
    pub fn window_start(self, len: usize) -> (r: usize)
        ensures
            r == window_start_of(self, len as nat),
            r <= len,
    {
        match self {
            Range::Day => len.saturating_sub(HOURS_IN_DAY + 1),
            Range::Week => 0,
        }
    }
}

/// Every window's tag names that window again.
pub proof fn law_range_tag_round_trips(r: Range)
    ensures
        range_of_tag(range_tag(r)) == Some(r),
{
    assert(seq!['2', '4', 'h'] != seq!['7', 'd']) by {
        assert(seq!['2', '4', 'h'].len() != seq!['7', 'd'].len());
    }
}

/// A coin as the market screen shows it. The change and aggregate fields
/// hold zero where the source published nothing.
#[derive(Debug)]
pub struct Coin {
    /// The source's identifier (`bitcoin`): the selection key.
    pub id: String,
    pub rank: i64,
    pub symbol: String,
    pub name: String,
    pub price: Money,
    pub change_1h: Money,
    pub change_24h: Money,
    pub change_7d: Money,
    pub market_cap: Money,
    pub volume_24h: Money,
    pub high_24h: Money,
    pub low_24h: Money,
    pub ath: Money,
    pub ath_change_pct: Money,
    pub circulating_supply: Money,
}

impl Coin {
    /// Every amount of the coin is one a `Decimal` holds.
    pub open spec fn wf(&self) -> bool {
        &&& self.price.wf()
        &&& self.change_1h.wf()
        &&& self.change_24h.wf()
        &&& self.change_7d.wf()
        &&& self.market_cap.wf()
        &&& self.volume_24h.wf()
        &&& self.high_24h.wf()
        &&& self.low_24h.wf()
        &&& self.ath.wf()
        &&& self.ath_change_pct.wf()
        &&& self.circulating_supply.wf()
    }
}

/// The coin matches an (already normalised) search term by ticker or name.
pub open spec fn coin_matches(c: Coin, needle: Seq<char>) -> bool {
    contains(lowercase(c.symbol@), needle) || contains(lowercase(c.name@), needle)
}

/// The ratio clamped into `[0, 1]`, as `Ord::clamp` does.
pub open spec fn clamped_unit(q: Money) -> Money {
    if less(q, zero_money()) {
        zero_money()
    } else if less(one_spec(), q) {
        one_spec()
    } else {
        q
    }
}

/// The meter's usable width: the `viewBox` less a margin on each side.
pub open spec fn meter_span() -> Money {
    Money { magnitude: (METER_W - 2 * METER_PAD) as u128, negative: false, scale: 0 }
}

/// The meter's margin as a decimal.
pub open spec fn meter_pad() -> Money {
    Money { magnitude: METER_PAD as u128, negative: false, scale: 0 }
}

/// The x coordinate of the price inside the 24 h range, with one decimal;
/// `None` without a published range (low not positive, or high not above
/// low), and where one of the `Decimal` operations gives nothing.
pub open spec fn range_marker(c: Coin) -> Option<Seq<char>> {
    if !less(zero_money(), c.low_24h) || less_eq(c.high_24h, c.low_24h) {
        None
    } else {
        let above = decimal_checked_sub(c.price, c.low_24h);
        let width = decimal_checked_sub(c.high_24h, c.low_24h);
        if above is None || width is None {
            None
        } else {
            let q = decimal_checked_div(above.unwrap(), width.unwrap());
            if q is None {
                None
            } else {
                let scaled = decimal_checked_mul(clamped_unit(q.unwrap()), meter_span());
                if scaled is None {
                    None
                } else {
                    let x = decimal_checked_add(meter_pad(), scaled.unwrap());
                    match x {
                        Some(x) => Some(minus_sign(x) + fixed_digits(x.magnitude as nat, x.scale as nat, 1)),
                        None => None,
                    }
                }
            }
        }
    }
}

impl Coin {
    /// Whether the coin matches a search term that is already lower case and
    /// trimmed: ticker and name both count.
    pub fn matches(&self, needle: &str) -> (r: bool)
        ensures
            r == coin_matches(*self, needle@),
    {
        let n = chars_of(needle);
        let symbol = to_lowercase(self.symbol.as_str());
        let s = chars_of(symbol.as_str());
        if contains_chars(&s, &n) {
            return true;
        }
        let name = to_lowercase(self.name.as_str());
        let m = chars_of(name.as_str());
        contains_chars(&m, &n)
    }

    /// Where the price sits in the day's trading range, as the marker's x in
    /// the meter's `viewBox` (margin 10, width 580 between the margins), with
    /// one decimal. A price outside the range is held at its edge.
    pub fn trading_range_x(&self) -> (r: Option<String>)
        requires
            self.wf(),
        ensures
            match r {
                Some(s) => range_marker(*self) == Some(s@),
                None => range_marker(*self) is None,
            },
    {
        let z = zero();
        if !lt(&z, &self.low_24h) || crate::money::le(&self.high_24h, &self.low_24h) {
            return None;
        }
        let above = match checked_sub(&self.price, &self.low_24h) {
            Some(a) => a,
            None => return None,
        };
        let width = match checked_sub(&self.high_24h, &self.low_24h) {
            Some(w) => w,
            None => return None,
        };
        let q = match checked_div(&above, &width) {
            Some(q) => q,
            None => return None,
        };
        let unit = one();
        let ratio = if lt(&q, &z) {
            z
        } else if lt(&unit, &q) {
            unit
        } else {
            q
        };
        let span = Money { magnitude: (METER_W - 2 * METER_PAD) as u128, negative: false, scale: 0 };
        let pad = Money { magnitude: METER_PAD as u128, negative: false, scale: 0 };
        let scaled = match checked_mul(&ratio, &span) {
            Some(s) => s,
            None => return None,
        };
        match checked_add(&pad, &scaled) {
            Some(x) => Some(fixed_text(&x, 1)),
            None => None,
        }
    }
}

/// The first index whose coin has the identifier `id`.
pub open spec fn is_first_with_id(coins: Seq<Coin>, id: Seq<char>, i: int) -> bool {
    &&& 0 <= i < coins.len()
    &&& coins[i].id@ == id
    &&& forall|j: int| 0 <= j < i ==> coins[j].id@ != id
}

/// Some coin has the identifier `id`.
pub open spec fn has_id(coins: Seq<Coin>, id: Seq<char>) -> bool {
    exists|i: int| 0 <= i < coins.len() && coins[i].id@ == id
}

/// What the market screen consumes: the list, when it was fetched (Unix
/// seconds), and whether the last refresh failed.
pub struct Snapshot {
    pub coins: Vec<Coin>,
    pub updated_at: Option<i64>,
    pub refresh_failed: bool,
}

impl Default for Snapshot {
    /// No coins yet, never fetched.
    fn default() -> (r: Snapshot)
        ensures
            r.coins@.len() == 0,
            r.updated_at is None,
            !r.refresh_failed,
    {
        Snapshot { coins: Vec::new(), updated_at: None, refresh_failed: false }
    }
}

impl Snapshot {
    /// The coin `id`, or the first of the ranking when `id` is absent or
    /// names no coin: the screen always opens on a filled panel.
    pub fn select(&self, id: Option<&str>) -> (r: Option<&Coin>)
        ensures
            self.coins@.len() == 0 ==> r is None,
            id matches Some(k) ==> (has_id(self.coins@, k@) ==> exists|i: int|
                #[trigger] is_first_with_id(self.coins@, k@, i) && r === Some(&self.coins@[i])),
            !(id matches Some(k) && has_id(self.coins@, k@)) && self.coins@.len() > 0 ==> r === Some(
                &self.coins@[0],
            ),
    {
        if let Some(k) = id {
            let mut i: usize = 0;
            while i < self.coins.len()
                invariant
                    i <= self.coins@.len(),
                    id == Some(k),
                    forall|j: int| 0 <= j < i ==> self.coins@[j].id@ != k@,
                decreases self.coins.len() - i,
            {
                if str_eq(self.coins[i].id.as_str(), k) {
                    let found = Some(&self.coins[i]);
                    proof {
                        assert(is_first_with_id(self.coins@, k@, i as int));
                        assert(has_id(self.coins@, k@));
                        assert(is_first_with_id(self.coins@, k@, i as int) && found === Some(
                            &self.coins@[i as int],
                        ));
                    }
                    return found;
                }
                i = i + 1;
            }
        }
        if self.coins.len() > 0 {
            Some(&self.coins[0])
        } else {
            None
        }
    }

    /// The index of the coin `id`, or of the first of the ranking when `id`
    /// is absent or names no coin.
    pub fn select_index(&self, id: Option<&str>) -> (r: Option<usize>)
        ensures
            self.coins@.len() == 0 ==> r is None,
            id matches Some(k) ==> (has_id(self.coins@, k@) ==> (r matches Some(i)
                && is_first_with_id(self.coins@, k@, i as int))),
            !(id matches Some(k) && has_id(self.coins@, k@)) && self.coins@.len() > 0 ==> r
                == Some(0usize),
    {
        if let Some(k) = id {
            let mut i: usize = 0;
            while i < self.coins.len()
                invariant
                    i <= self.coins@.len(),
                    id == Some(k),
                    forall|j: int| 0 <= j < i ==> self.coins@[j].id@ != k@,
                decreases self.coins.len() - i,
            {
                if str_eq(self.coins[i].id.as_str(), k) {
                    proof {
                        assert(is_first_with_id(self.coins@, k@, i as int));
                        assert(has_id(self.coins@, k@));
                    }
                    return Some(i);
                }
                i = i + 1;
            }
        }
        if self.coins.len() > 0 {
            Some(0)
        } else {
            None
        }
    }

    /// No coin yet: before the first successful refresh.
    pub fn is_empty(&self) -> (r: bool)
        ensures
            r == (self.coins@.len() == 0),
    {
        self.coins.len() == 0
    }
}

/// The index of the sample that the time mark `tick` (of five) dates, in a
/// window of `points` samples: the marks split the window evenly.
pub open spec fn tick_index(points: nat, tick: nat) -> nat {
    (((points - 1) * tick) as int / 4) as nat
}

/// How the time axis of a window of `points` hourly samples is labelled:
/// whether by hour (a window of at most a day) and, for each of the five
/// marks, how many hours before the last sample it falls.
pub fn axis_offsets(points: usize) -> (r: (bool, Vec<u64>))
    requires
        points >= 1,
    ensures
        r.0 == (points - 1 <= HOURS_IN_DAY),
        r.1@.len() == AXIS_TICKS,
        forall|t: int|
            0 <= t < AXIS_TICKS ==> r.1@[t] == (points - 1) - tick_index(points as nat, t as nat),
{
    let last_index = points - 1;
    let hourly = last_index <= HOURS_IN_DAY;
    let mut out: Vec<u64> = Vec::new();
    let mut tick: usize = 0;
    while tick < AXIS_TICKS
        invariant
            tick <= AXIS_TICKS,
            last_index == points - 1,
            out@.len() == tick,
            forall|t: int|
                0 <= t < tick ==> out@[t] == (points - 1) - tick_index(points as nat, t as nat),
        decreases AXIS_TICKS - tick,
    {
        proof {
            assert(last_index as u128 * tick as u128 <= 0xffff_ffff_ffff_ffffu128 * 4) by (nonlinear_arith)
                requires last_index <= 0xffff_ffff_ffff_ffffu64, tick <= 4;
        }
        let index = (last_index as u128 * tick as u128 / (AXIS_TICKS - 1) as u128) as usize;
        proof {
            assert(last_index as u128 * tick as u128 <= last_index as u128 * 4) by (nonlinear_arith)
                requires tick <= 4;
            assert(index <= last_index) by (nonlinear_arith)
                requires index == last_index as u128 * tick as u128 / 4, last_index as u128 * tick as u128 <= last_index as u128 * 4;
        }
        out.push((last_index - index) as u64);
        tick = tick + 1;
    }
    (hourly, out)
}

/// The earliest instant `time` represents: -9999-01-01 00:00:00 UTC.
pub const UNIX_MIN: i64 = -377_705_116_800;

/// The latest instant `time` represents: 9999-12-31 23:59:59 UTC.
pub const UNIX_MAX: i64 = 253_402_300_799;

/// `time`'s UTC calendar day and month (`1..=12`) of the instant `at` (Unix
/// seconds), or `None` where `time` cannot represent the instant.
pub uninterp spec fn utc_day_month_of(at: i64) -> Option<(u8, u8)>;

/// `OffsetDateTime::from_unix_timestamp`, then `hour` and `minute`: an instant
/// in `time`'s range has them, and they are the hours and minutes into its
/// UTC day (`time` takes the seconds of the day with `rem_euclid`).
#[verifier::external_body]
fn utc_hour_minute(at: i64) -> (r: Option<(u8, u8)>)
    ensures
        UNIX_MIN <= at <= UNIX_MAX ==> r is Some,
        r matches Some(hm) ==> hm.0 == (at % 86400) / 3600 && hm.1 == (at % 3600) / 60,
{
    match OffsetDateTime::from_unix_timestamp(at) {
        Ok(instant) => Some((instant.hour(), instant.minute())),
        Err(_) => None,
    }
}

/// `OffsetDateTime::from_unix_timestamp`, then `day` and `month` (as its
/// number): an instant in `time`'s range has them, a day in `1..=31` and a
/// month in `1..=12`.
#[verifier::external_body]
fn utc_day_month(at: i64) -> (r: Option<(u8, u8)>)
    ensures
        r == utc_day_month_of(at),
        UNIX_MIN <= at <= UNIX_MAX ==> r is Some,
        r matches Some(dm) ==> 1 <= dm.0 <= 31 && 1 <= dm.1 <= 12,
{
    match OffsetDateTime::from_unix_timestamp(at) {
        Ok(instant) => Some((instant.day(), u8::from(instant.month()))),
        Err(_) => None,
    }
}

/// `n` in two decimal digits (`n < 100`), as `{:02}` writes it.
pub open spec fn two_digits(n: nat) -> Seq<char> {
    seq![digit_char(n / 10), digit_char(n % 10)]
}

/// The character of a decimal digit.
fn digit(d: u8) -> (c: char)
    requires
        d < 10,
    ensures
        c == digit_char(d as nat),
{
    if d == 0 {
        '0'
    } else if d == 1 {
        '1'
    } else if d == 2 {
        '2'
    } else if d == 3 {
        '3'
    } else if d == 4 {
        '4'
    } else if d == 5 {
        '5'
    } else if d == 6 {
        '6'
    } else if d == 7 {
        '7'
    } else if d == 8 {
        '8'
    } else {
        '9'
    }
}

/// Two numbers below 100, each in two digits, around a separator.
fn pair_label(a: u8, sep: char, b: u8) -> (r: String)
    requires
        a < 100,
        b < 100,
    ensures
        r@ == two_digits(a as nat) + seq![sep] + two_digits(b as nat),
{
    let mut out = String::new();
    push_char(&mut out, digit(a / 10));
    push_char(&mut out, digit(a % 10));
    push_char(&mut out, sep);
    push_char(&mut out, digit(b / 10));
    push_char(&mut out, digit(b % 10));
    proof {
        assert(out@ =~= two_digits(a as nat) + seq![sep] + two_digits(b as nat));
    }
    out
}

/// The instant of the time mark `tick`: the last sample's instant `end`, less
/// one hour for each sample between them.
pub open spec fn tick_instant(points: nat, end: int, tick: nat) -> int {
    end - 3600 * ((points - 1) - tick_index(points, tick))
}

/// `HH:MM`, the UTC wall clock of the instant `at`.
pub open spec fn clock_label(at: int) -> Seq<char> {
    two_digits(((at % 86400) / 3600) as nat) + seq![':'] + two_digits(((at % 3600) / 60) as nat)
}

/// `DD/MM`, the UTC calendar date of the instant `at`, without the year.
pub open spec fn date_label(at: i64) -> Seq<char> {
    match utc_day_month_of(at) {
        Some(dm) => two_digits(dm.0 as nat) + seq!['/'] + two_digits(dm.1 as nat),
        None => Seq::empty(),
    }
}

/// The label of the time mark `tick`: the hour for a window of at most a
/// day, the date beyond.
pub open spec fn tick_label(points: nat, end: i64, tick: nat) -> Seq<char> {
    let at = tick_instant(points, end as int, tick);
    if points - 1 <= HOURS_IN_DAY {
        clock_label(at)
    } else {
        date_label(at as i64)
    }
}

/// The labels of the time axis under a chart of `points` hourly samples
/// whose last one was taken at `updated_at` (Unix seconds): one for each of
/// the five marks, which split the window evenly. Before the first refresh
/// there is no instant to date the series by, and the axis has no label.
pub fn axis_ticks(points: usize, updated_at: Option<i64>) -> (r: Vec<String>)
    requires
        updated_at matches Some(end) ==> {
            &&& points >= 1
            &&& end <= UNIX_MAX
            &&& end - 3600 * (points - 1) >= UNIX_MIN
        },
    ensures
        updated_at is None ==> r@.len() == 0,
        updated_at matches Some(end) ==> {
            &&& r@.len() == AXIS_TICKS
            &&& forall|t: int|
                0 <= t < AXIS_TICKS ==> #[trigger] r@[t]@ == tick_label(points as nat, end, t as nat)
        },
{
    let end = match updated_at {
        Some(end) => end,
        None => return Vec::new(),
    };
    let (hourly, offsets) = axis_offsets(points);
    let mut labels: Vec<String> = Vec::new();
    let mut i: usize = 0;
    while i < offsets.len()
        invariant
            offsets@.len() == AXIS_TICKS,
            hourly == (points - 1 <= HOURS_IN_DAY),
            forall|t: int|
                0 <= t < AXIS_TICKS ==> offsets@[t] == (points - 1) - tick_index(points as nat, t as nat),
            points >= 1,
            end <= UNIX_MAX,
            end - 3600 * (points - 1) >= UNIX_MIN,
            i <= offsets.len(),
            labels@.len() == i,
            forall|t: int|
                0 <= t < i ==> #[trigger] labels@[t]@ == tick_label(points as nat, end, t as nat),
        decreases offsets.len() - i,
    {
        let back = offsets[i];
        proof {
            assert(back <= points - 1);
            assert(3600 * back <= 3600 * (points - 1)) by (nonlinear_arith)
                requires back <= points - 1;
        }
        let at: i64 = (end as i128 - 3600i128 * (back as i128)) as i64;
        assert(at == tick_instant(points as nat, end as int, i as nat));
        let label = if hourly {
            match utc_hour_minute(at) {
                Some((h, m)) => pair_label(h, ':', m),
                None => String::new(),
            }
        } else {
            match utc_day_month(at) {
                Some((d, m)) => pair_label(d, '/', m),
                None => String::new(),
            }
        };
        labels.push(label);
        i = i + 1;
    }
    labels
}

/// A trend that ends above zero (a missing one counts as zero).
pub open spec fn rises(delta: Option<Money>) -> bool {
    match delta {
        Some(d) => num(d) > 0,
        None => false,
    }
}

/// A trend that ends below zero (a missing one counts as zero).
pub open spec fn falls(delta: Option<Money>) -> bool {
    match delta {
        Some(d) => num(d) < 0,
        None => false,
    }
}

/// Did the window close up? Picks the stroke colour, always shown next to
/// the signed percentage.
pub fn is_up(delta_pct: &Option<Money>) -> (r: bool)
    requires
        delta_pct matches Some(d) ==> d.wf(),
    ensures
        r == rises(*delta_pct),
{
    match delta_pct {
        Some(d) => crate::format::positive(d),
        None => false,
    }
}

/// Did the window close down?
pub fn is_down(delta_pct: &Option<Money>) -> (r: bool)
    requires
        delta_pct matches Some(d) ==> d.wf(),
    ensures
        r == falls(*delta_pct),
{
    match delta_pct {
        Some(d) => crate::format::negative(d),
        None => false,
    }
}

/// `(rank, index)` of `a` comes strictly before that of `b`.
pub open spec fn rank_before(ranks: Seq<i64>, a: int, b: int) -> bool {
    ranks[a] < ranks[b] || (ranks[a] == ranks[b] && a < b)
}

/// The order in which a stable sort by rank puts the coins: a permutation of
/// `0..n`, ordered by rank and, among equal ranks, by position in the input.
pub fn rank_order(ranks: &Vec<i64>) -> (order: Vec<usize>)
    ensures
        order@.len() == ranks@.len(),
        forall|i: int| 0 <= i < order@.len() ==> order@[i] < ranks@.len(),
        forall|i: int, j: int| 0 <= i < j < order@.len() ==> order@[i] != order@[j],
        forall|i: int, j: int|
            0 <= i < j < order@.len() ==> rank_before(ranks@, order@[i] as int, order@[j] as int),
{
    let mut order: Vec<usize> = Vec::new();
    let mut k: usize = 0;
    while k < ranks.len()
        invariant
            k <= ranks@.len(),
            order@.len() == k,
            forall|i: int| 0 <= i < order@.len() ==> order@[i] < k,
            forall|i: int, j: int| 0 <= i < j < order@.len() ==> order@[i] != order@[j],
            forall|i: int, j: int|
                0 <= i < j < order@.len() ==> rank_before(ranks@, order@[i] as int, order@[j] as int),
        decreases ranks@.len() - k,
    {
        // Everything already placed comes before `k` unless its rank is
        // higher; find the first such position.
        let mut pos: usize = 0;
        while pos < order.len() && ranks[order[pos]] <= ranks[k]
            invariant
                pos <= order@.len(),
                order@.len() == k,
                k < ranks@.len(),
                forall|i: int| 0 <= i < order@.len() ==> order@[i] < k,
                forall|i: int| 0 <= i < pos ==> ranks@[order@[i] as int] <= ranks@[k as int],
            decreases order@.len() - pos,
        {
            pos = pos + 1;
        }
        let ghost before = order@;
        order.insert(pos, k);
        proof {
            assert(order@ == before.take(pos as int).push(k).add(before.skip(pos as int)));
            assert forall|i: int| 0 <= i < order@.len() implies order@[i] < k + 1 by {
                if i < pos {
                    assert(order@[i] == before[i]);
                } else if i > pos {
                    assert(order@[i] == before[i - 1]);
                }
            }
            assert forall|i: int, j: int| 0 <= i < j < order@.len() implies order@[i] != order@[j] by {
                if i < pos && j < pos {
                    assert(order@[i] == before[i] && order@[j] == before[j]);
                } else if i < pos && j == pos {
                    assert(order@[i] == before[i]);
                } else if i < pos && j > pos {
                    assert(order@[i] == before[i] && order@[j] == before[j - 1]);
                } else if i == pos {
                    assert(order@[j] == before[j - 1]);
                } else {
                    assert(order@[i] == before[i - 1] && order@[j] == before[j - 1]);
                }
            }
            assert forall|i: int, j: int| 0 <= i < j < order@.len() implies rank_before(
                ranks@,
                order@[i] as int,
                order@[j] as int,
            ) by {
                if i < pos && j < pos {
                    assert(order@[i] == before[i] && order@[j] == before[j]);
                } else if i < pos && j == pos {
                    assert(order@[i] == before[i]);
                    assert(ranks@[before[i] as int] <= ranks@[k as int]);
                    assert(before[i] < k);
                } else if i < pos && j > pos {
                    assert(order@[i] == before[i] && order@[j] == before[j - 1]);
                } else if i == pos {
                    assert(order@[j] == before[j - 1]);
                    let p = pos as int;
                    assert(rank_before(ranks@, before[p] as int, before[j - 1] as int) || j - 1 == p);
                    assert(!(ranks@[before[p] as int] <= ranks@[k as int]));
                } else {
                    assert(order@[i] == before[i - 1] && order@[j] == before[j - 1]);
                }
            }
        }
        k = k + 1;
    }
    order
}

} // verus!
