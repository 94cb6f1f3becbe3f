//! Exact decimal money, as `rust_decimal::Decimal` holds it: a 96-bit
//! magnitude, a sign flag and a scale of at most 28 decimal places. The
//! arithmetic is `rust_decimal`'s own; this module fixes what each operation
//! returns over the plain parts.
use vstd::prelude::*;

use rust_decimal::Decimal;

verus! {

/// `rust_decimal::Decimal`, carried through opaque.
#[verifier::external_type_specification]
#[verifier::external_body]
pub struct ExDecimal(Decimal);

/// Largest magnitude a `Decimal` holds (2^96 - 1).
pub const MAX_MAGNITUDE: u128 = 79_228_162_514_264_337_593_543_950_335;

/// Largest scale a `Decimal` holds.
pub const MAX_SCALE: u32 = 28;

/// A decimal number: `(-1)^negative * magnitude / 10^scale`.
#[derive(Clone, Copy, Debug, PartialEq, Eq, Structural)]
pub struct Money {
    pub magnitude: u128,
    pub negative: bool,
    pub scale: u32,
}

pub open spec fn pow10(n: nat) -> nat
    decreases n,
{
    if n == 0 {
        1
    } else {
        10 * pow10((n - 1) as nat)
    }
}

/// The signed numerator of `x`: its value is `num(x) / 10^x.scale`.
pub open spec fn num(x: Money) -> int {
    if x.negative {
        -(x.magnitude as int)
    } else {
        x.magnitude as int
    }
}

/// `a < b` as numbers.
pub open spec fn less(a: Money, b: Money) -> bool {
    num(a) * pow10(b.scale as nat) < num(b) * pow10(a.scale as nat)
}

/// `a <= b` as numbers.
pub open spec fn less_eq(a: Money, b: Money) -> bool {
    num(a) * pow10(b.scale as nat) <= num(b) * pow10(a.scale as nat)
}

/// `a == b` as numbers (2.50 equals 2.5).
pub open spec fn same_value(a: Money, b: Money) -> bool {
    num(a) * pow10(b.scale as nat) == num(b) * pow10(a.scale as nat)
}

/// The exact product, at the sum of the scales.
pub open spec fn exact_product(a: Money, b: Money) -> Money {
    Money {
        magnitude: (a.magnitude * b.magnitude) as u128,
        negative: a.negative != b.negative,
        scale: (a.scale + b.scale) as u32,
    }
}

/// `x` rounded to `dp` decimal places, midpoints to the even neighbour
/// (`Decimal::round_dp`).
pub open spec fn rounded(x: Money, dp: nat) -> Money {
    if x.scale <= dp {
        x
    } else if x.magnitude == 0 {
        Money { magnitude: 0, negative: x.negative, scale: dp as u32 }
    } else {
        let d = pow10((x.scale - dp) as nat);
        let q = x.magnitude as int / d as int;
        let r = x.magnitude as int % d as int;
        let half = d as int / 2;
        let q2 = if r > half || (r == half && q % 2 == 1) { q + 1 } else { q };
        Money { magnitude: q2 as u128, negative: q2 != 0 && x.negative, scale: dp as u32 }
    }
}

/// Zero, as `Decimal::ZERO` holds it.
pub open spec fn zero_money() -> Money {
    Money { magnitude: 0, negative: false, scale: 0 }
}

/// The name of `Decimal::checked_mul` on two well-formed decimals.
pub uninterp spec fn decimal_checked_mul(a: Money, b: Money) -> Option<Money>;

/// The name of `Decimal::checked_div` on two well-formed decimals.
pub uninterp spec fn decimal_checked_div(a: Money, b: Money) -> Option<Money>;

/// The name of `Decimal::checked_sub` on two well-formed decimals.
pub uninterp spec fn decimal_checked_sub(a: Money, b: Money) -> Option<Money>;

/// The name of `Decimal::checked_add` on two well-formed decimals.
pub uninterp spec fn decimal_checked_add(a: Money, b: Money) -> Option<Money>;

impl Money {
    /// A `Decimal` can hold it: magnitude within 96 bits, scale at most 28.
    pub open spec fn wf(self) -> bool {
        self.magnitude <= MAX_MAGNITUDE && self.scale <= MAX_SCALE
    }

    /// The decimal `mantissa / 10^scale`; `None` where a `Decimal` cannot hold it.
    pub fn new(mantissa: i128, scale: u32) -> (r: Option<Money>)
        ensures
            r is Some <==> (-(MAX_MAGNITUDE as int) <= mantissa <= MAX_MAGNITUDE && scale <= MAX_SCALE),
            r matches Some(x) ==> x.wf() && num(x) == mantissa && x.scale == scale,
    {
        if scale > MAX_SCALE || mantissa > MAX_MAGNITUDE as i128 || mantissa < -(MAX_MAGNITUDE as i128) {
            return None;
        }
        if mantissa < 0 {
            Some(Money { magnitude: (-mantissa) as u128, negative: true, scale })
        } else {
            Some(Money { magnitude: mantissa as u128, negative: false, scale })
        }
    }

    /// The whole number `n`.
    pub fn from_int(n: i64) -> (r: Money)
        ensures
            r.wf(),
            num(r) == n,
            r.scale == 0,
    {
        if n < 0 {
            Money { magnitude: (-(n as i128)) as u128, negative: true, scale: 0 }
        } else {
            Money { magnitude: n as u128, negative: false, scale: 0 }
        }
    }

    /// The signed mantissa (`Decimal::mantissa`).
    pub fn mantissa(&self) -> (r: i128)
        requires
            self.wf(),
        ensures
            r == num(*self),
    {
        if self.negative {
            -(self.magnitude as i128)
        } else {
            self.magnitude as i128
        }
    }

    pub fn is_zero(&self) -> (r: bool)
        ensures
            r == (num(*self) == 0),
    {
        self.magnitude == 0
    }

    /// Strictly above zero.
    pub fn is_positive(&self) -> (r: bool)
        ensures
            r == (num(*self) > 0),
    {
        self.magnitude != 0 && !self.negative
    }

    /// Strictly below zero.
    pub fn is_negative(&self) -> (r: bool)
        ensures
            r == (num(*self) < 0),
    {
        self.magnitude != 0 && self.negative
    }

    /// The sign flag (`Decimal::is_sign_negative`), set also on a negative zero.
    pub fn is_sign_negative(&self) -> (r: bool)
        ensures
            r == self.negative,
    {
        self.negative
    }

    /// The absolute value (`Decimal::abs`).
    pub fn abs(&self) -> (r: Money)
        ensures
            r == (Money { magnitude: self.magnitude, negative: false, scale: self.scale }),
    {
        Money { magnitude: self.magnitude, negative: false, scale: self.scale }
    }

    /// The opposite (`-x`): the sign flag flips.
    pub fn neg(&self) -> (r: Money)
        ensures
            r == (Money { magnitude: self.magnitude, negative: !self.negative, scale: self.scale }),
            num(r) == -num(*self),
    {
        Money { magnitude: self.magnitude, negative: !self.negative, scale: self.scale }
    }
}

/// The `Decimal` with these parts (`Decimal::from_i128_with_scale`, then
/// `set_sign_negative`, which also keeps a negative zero's flag).
#[verifier::external_body]
fn to_decimal(x: &Money) -> Decimal
    requires
        x.wf(),
{
    let mut d = Decimal::from_i128_with_scale(x.magnitude as i128, x.scale);
    d.set_sign_negative(x.negative);
    d
}

/// The parts of a `Decimal` (`mantissa`, `is_sign_negative`, `scale`):
/// always a magnitude of at most 96 bits and a scale of at most 28.
#[verifier::external_body]
fn from_decimal(d: Decimal) -> (r: Money)
    ensures
        r.wf(),
{
    Money { magnitude: d.mantissa().unsigned_abs(), negative: d.is_sign_negative(), scale: d.scale() }
}

/// `a < b` (`Decimal`'s ordering is the numeric one).
#[verifier::external_body]
pub(crate) fn lt(a: &Money, b: &Money) -> (r: bool)
    requires
        a.wf(),
        b.wf(),
    ensures
        r == less(*a, *b),
{
    to_decimal(a) < to_decimal(b)
}

/// `a <= b`.
#[verifier::external_body]
pub(crate) fn le(a: &Money, b: &Money) -> (r: bool)
    requires
        a.wf(),
        b.wf(),
    ensures
        r == less_eq(*a, *b),
{
    to_decimal(a) <= to_decimal(b)
}

/// `a == b` as numbers.
#[verifier::external_body]
pub(crate) fn eq(a: &Money, b: &Money) -> (r: bool)
    requires
        a.wf(),
        b.wf(),
    ensures
        r == same_value(*a, *b),
{
    to_decimal(a) == to_decimal(b)
}

/// `Decimal::checked_mul`: `None` on overflow; exact whenever the product
/// fits in 96 bits at the sum of the scales (and zero when a factor is zero).
#[verifier::external_body]
pub(crate) fn checked_mul(a: &Money, b: &Money) -> (r: Option<Money>)
    requires
        a.wf(),
        b.wf(),
    ensures
        r == decimal_checked_mul(*a, *b),
        r matches Some(x) ==> x.wf(),
        (a.magnitude == 0 || b.magnitude == 0) ==> r == Some(zero_money()),
        (a.magnitude != 0 && b.magnitude != 0 && a.magnitude * b.magnitude <= MAX_MAGNITUDE
            && a.scale + b.scale <= MAX_SCALE) ==> r == Some(exact_product(*a, *b)),
{
    to_decimal(a).checked_mul(to_decimal(b)).map(from_decimal)
}

/// `Decimal::checked_div`: `None` on division by zero or overflow; zero
/// divided by anything else is zero.
#[verifier::external_body]
pub(crate) fn checked_div(a: &Money, b: &Money) -> (r: Option<Money>)
    requires
        a.wf(),
        b.wf(),
    ensures
        r == decimal_checked_div(*a, *b),
        r matches Some(x) ==> x.wf(),
        b.magnitude == 0 ==> r is None,
        (a.magnitude == 0 && b.magnitude != 0) ==> r == Some(zero_money()),
{
    to_decimal(a).checked_div(to_decimal(b)).map(from_decimal)
}

/// `Decimal::checked_sub`: `None` on overflow. Two decimals of one scale
/// whose difference fits 96 bits subtract exactly, at that scale.
#[verifier::external_body]
pub(crate) fn checked_sub(a: &Money, b: &Money) -> (r: Option<Money>)
    requires
        a.wf(),
        b.wf(),
    ensures
        r == decimal_checked_sub(*a, *b),
        r matches Some(x) ==> x.wf(),
        (a.scale == b.scale && num(*a) - num(*b) <= MAX_MAGNITUDE && num(*b) - num(*a) <= MAX_MAGNITUDE) ==> (r is Some
            && r->0.scale == a.scale && num(r->0) == num(*a) - num(*b)),
{
    to_decimal(a).checked_sub(to_decimal(b)).map(from_decimal)
}

/// `Decimal::checked_add`: `None` on overflow. Two decimals of one scale
/// whose sum fits 96 bits add exactly, at that scale.
#[verifier::external_body]
pub(crate) fn checked_add(a: &Money, b: &Money) -> (r: Option<Money>)
    requires
        a.wf(),
        b.wf(),
    ensures
        r == decimal_checked_add(*a, *b),
        r matches Some(x) ==> x.wf(),
        (a.scale == b.scale && num(*a) + num(*b) <= MAX_MAGNITUDE && 0 - num(*a) - num(*b) <= MAX_MAGNITUDE) ==> (r is Some
            && r->0.scale == a.scale && num(r->0) == num(*a) + num(*b)),
{
    to_decimal(a).checked_add(to_decimal(b)).map(from_decimal)
}

/// `Decimal::round_dp`: round to `dp` places, midpoints to the even neighbour.
#[verifier::external_body]
pub(crate) fn round_dp(x: &Money, dp: u32) -> (r: Money)
    requires
        x.wf(),
    ensures
        r == rounded(*x, dp as nat),
        r.wf(),
{
    from_decimal(to_decimal(x).round_dp(dp))
}


/// The character of the decimal digit `d` (`d < 10`).
pub open spec fn digit_char(d: nat) -> char {
    if d == 0 {
        '0'
    } else if d == 1 {
        '1'
    } else if d == 2 {
        '2'
    } else if d == 3 {
        '3'
    } else if d == 4 {
        '4'
    } else if d == 5 {
        '5'
    } else if d == 6 {
        '6'
    } else if d == 7 {
        '7'
    } else if d == 8 {
        '8'
    } else {
        '9'
    }
}

/// The decimal digits of `n`, most significant first; empty for zero.
pub open spec fn digits(n: nat) -> Seq<char>
    decreases n,
{
    if n == 0 {
        Seq::empty()
    } else {
        digits(n / 10).push(digit_char(n % 10))
    }
}

/// `k` zero characters.
pub open spec fn zeros(k: nat) -> Seq<char> {
    Seq::new(k, |i: int| '0')
}

/// The digits of `m`, left-padded with zeros to at least `scale` of them.
pub open spec fn padded_digits(m: nat, scale: nat) -> Seq<char> {
    let d = digits(m);
    if d.len() < scale {
        zeros((scale - d.len()) as nat) + d
    } else {
        d
    }
}

/// The whole-number digits of `m / 10^scale` (`"0"` when there are none).
pub open spec fn whole_digits(m: nat, scale: nat) -> Seq<char> {
    let p = padded_digits(m, scale);
    let whole = p.take(p.len() - scale);
    if whole.len() == 0 {
        seq!['0']
    } else {
        whole
    }
}

/// The first `prec` fractional digits of `m / 10^scale`, zero-filled.
pub open spec fn fraction_digits(m: nat, scale: nat, prec: nat) -> Seq<char> {
    let p = padded_digits(m, scale);
    (p.skip(p.len() - scale) + zeros(prec)).take(prec as int)
}

/// `m / 10^scale` written with exactly `prec` fractional digits, cut (not
/// rounded) where the number has more: what `format!("{:.prec$}", d)` gives
/// for a non-negative `Decimal`.
pub open spec fn fixed_digits(m: nat, scale: nat, prec: nat) -> Seq<char> {
    if prec == 0 {
        whole_digits(m, scale)
    } else {
        whole_digits(m, scale) + seq!['.'] + fraction_digits(m, scale, prec)
    }
}

/// What `x.to_string()` gives: the sign flag as a leading `-`, then every
/// digit of the scale.
pub open spec fn plain_digits(x: Money) -> Seq<char> {
    minus_sign(x) + fixed_digits(x.magnitude as nat, x.scale as nat, x.scale as nat)
}

/// `"-"` when the sign flag is set (also on a negative zero), else nothing.
pub open spec fn minus_sign(x: Money) -> Seq<char> {
    if x.negative {
        seq!['-']
    } else {
        Seq::empty()
    }
}

/// `format!("{:.prec$}", x)` (`Display` with a precision): the sign flag as a
/// leading `-`, then the digits of the magnitude cut after `prec` places.
#[verifier::external_body]
pub(crate) fn fixed_text(x: &Money, prec: usize) -> (r: String)
    requires
        x.wf(),
        prec <= MAX_SCALE,
    ensures
        r@ == minus_sign(*x) + fixed_digits(x.magnitude as nat, x.scale as nat, prec as nat),
{
    format!("{:.*}", prec, to_decimal(x))
}

/// `x.to_string()` (`Display` without a precision).
#[verifier::external_body]
pub(crate) fn plain_text(x: &Money) -> (r: String)
    requires
        x.wf(),
    ensures
        r@ == plain_digits(*x),
{
    to_decimal(x).to_string()
}

/// `(m, s)` with trailing zeros stripped from `m` while `s` allows.
pub open spec fn stripped(m: nat, s: nat) -> (nat, nat)
    decreases s,
{
    if s > 0 && m % 10 == 0 {
        stripped(m / 10, (s - 1) as nat)
    } else {
        (m, s)
    }
}

/// `Decimal::normalize`: trailing zeros stripped, and zero made positive
/// with no scale.
pub open spec fn normalized(x: Money) -> Money {
    if x.magnitude == 0 {
        zero_money()
    } else {
        let (m, s) = stripped(x.magnitude as nat, x.scale as nat);
        Money { magnitude: m as u128, negative: x.negative, scale: s as u32 }
    }
}

proof fn lemma_stripped_bounds(m: nat, s: nat)
    ensures
        stripped(m, s).0 <= m,
        stripped(m, s).1 <= s,
    decreases s,
{
    if s > 0 && m % 10 == 0 {
        lemma_stripped_bounds(m / 10, (s - 1) as nat);
    }
}

impl Money {
    /// The same number without trailing zeros (`Decimal::normalize`).
    pub fn normalize(&self) -> (r: Money)
        ensures
            r == normalized(*self),
            self.wf() ==> r.wf(),
            same_value(r, *self),
    {
        if self.magnitude == 0 {
            let z = Money { magnitude: 0, negative: false, scale: 0 };
            assert(num(*self) == 0 && num(z) == 0);
            assert(num(z) * pow10(self.scale as nat) == 0 * pow10(self.scale as nat));
            assert(0 * pow10(self.scale as nat) == 0) by (nonlinear_arith);
            assert(num(*self) * pow10(0) == 0);
            return z;
        }
        let mut m: u128 = self.magnitude;
        let mut s: u32 = self.scale;
        while s > 0 && m % 10 == 0
            invariant
                stripped(m as nat, s as nat) == stripped(self.magnitude as nat, self.scale as nat),
                m <= self.magnitude,
                s <= self.scale,
                num(Money { magnitude: m, negative: self.negative, scale: s }) * pow10(self.scale as nat)
                    == num(*self) * pow10(s as nat),
            decreases s,
        {
            proof {
                lemma_strip_step(m as int, s as nat, self.scale as nat, num(*self), self.negative);
            }
            m = m / 10;
            s = s - 1;
        }
        proof {
            lemma_stripped_bounds(self.magnitude as nat, self.scale as nat);
        }
        Money { magnitude: m, negative: self.negative, scale: s }
    }
}

proof fn lemma_strip_step(m: int, s: nat, orig_scale: nat, orig_num: int, neg: bool)
    requires
        s > 0,
        m >= 0,
        m % 10 == 0,
        (if neg { -m } else { m }) * pow10(orig_scale) == orig_num * pow10(s),
    ensures
        (if neg { -(m / 10) } else { m / 10 }) * pow10(orig_scale) == orig_num * pow10((s - 1) as nat),
{
    let q = m / 10;
    let p = pow10(orig_scale);
    let t = pow10((s - 1) as nat);
    assert(m == 10 * q);
    assert(pow10(s) == 10 * t);
    if neg {
        assert((-m) * p == 10 * ((-q) * p)) by (nonlinear_arith)
            requires m == 10 * q;
    } else {
        assert(m * p == 10 * (q * p)) by (nonlinear_arith)
            requires m == 10 * q;
    }
    assert(orig_num * pow10(s) == 10 * (orig_num * t)) by (nonlinear_arith)
        requires pow10(s) == 10 * t;
}

/// The decimal one (`Decimal::ONE`).
pub fn one() -> (r: Money)
    ensures
        r == one_spec(),
{
    Money { magnitude: 1, negative: false, scale: 0 }
}

/// The spec twin of `one()`.
pub open spec fn one_spec() -> Money {
    Money { magnitude: 1, negative: false, scale: 0 }
}

/// Zero (`Decimal::ZERO`).
pub fn zero() -> (r: Money)
    ensures
        r == zero_money(),
{
    Money { magnitude: 0, negative: false, scale: 0 }
}

pub proof fn lemma_pow10_positive(n: nat)
    ensures
        pow10(n) > 0,
    decreases n,
{
    if n > 0 {
        lemma_pow10_positive((n - 1) as nat);
    }
}

pub proof fn lemma_pow10_monotone(a: nat, b: nat)
    requires
        a <= b,
    ensures
        pow10(a) <= pow10(b),
    decreases b,
{
    if a < b {
        lemma_pow10_monotone(a, (b - 1) as nat);
        lemma_pow10_positive((b - 1) as nat);
    }
}

/// Cross-multiplied order chains: from `x/p < y/q` and `y/q <= z/r`
/// follows `x/p < z/r` (denominators positive).
proof fn lemma_cross_chain(x: int, p: int, y: int, q: int, z: int, r: int, strict_first: bool)
    requires
        p > 0,
        q > 0,
        r > 0,
        strict_first ==> x * q < y * p,
        !strict_first ==> x * q <= y * p,
        strict_first ==> y * r <= z * q,
        !strict_first ==> y * r < z * q,
    ensures
        x * r < z * p,
{
    if strict_first {
        assert(x * q * r < y * p * r) by (nonlinear_arith)
            requires x * q < y * p, r > 0;
        assert(y * r * p <= z * q * p) by (nonlinear_arith)
            requires y * r <= z * q, p > 0;
    } else {
        assert(x * q * r <= y * p * r) by (nonlinear_arith)
            requires x * q <= y * p, r > 0;
        assert(y * r * p < z * q * p) by (nonlinear_arith)
            requires y * r < z * q, p > 0;
    }
    assert(x * q * r == (x * r) * q) by (nonlinear_arith);
    assert(y * p * r == y * r * p) by (nonlinear_arith);
    assert(z * q * p == (z * p) * q) by (nonlinear_arith);
    assert(x * r < z * p) by (nonlinear_arith)
        requires (x * r) * q < (z * p) * q, q > 0;
}

/// `a < b` and `b <= c` give `a < c`.
pub proof fn lemma_order_trans_lt_le(a: Money, b: Money, c: Money)
    requires
        less(a, b),
        less_eq(b, c),
    ensures
        less(a, c),
        less_eq(a, c),
{
    lemma_pow10_positive(a.scale as nat);
    lemma_pow10_positive(b.scale as nat);
    lemma_pow10_positive(c.scale as nat);
    lemma_cross_chain(num(a), pow10(a.scale as nat) as int, num(b), pow10(b.scale as nat) as int, num(c), pow10(c.scale as nat) as int, true);
}

/// `a <= b` and `b < c` give `a < c`.
pub proof fn lemma_order_trans_le_lt(a: Money, b: Money, c: Money)
    requires
        less_eq(a, b),
        less(b, c),
    ensures
        less(a, c),
        less_eq(a, c),
{
    lemma_pow10_positive(a.scale as nat);
    lemma_pow10_positive(b.scale as nat);
    lemma_pow10_positive(c.scale as nat);
    lemma_cross_chain(num(a), pow10(a.scale as nat) as int, num(b), pow10(b.scale as nat) as int, num(c), pow10(c.scale as nat) as int, false);
}

/// `a <= a`.
pub proof fn lemma_order_refl(a: Money)
    ensures
        less_eq(a, a),
{
}

/// Rounding to `dp` places leaves at most `dp` places.
pub proof fn lemma_rounded_scale(x: Money, dp: nat)
    requires
        dp <= u32::MAX,
    ensures
        rounded(x, dp).scale <= dp,
{
}

} // verus!
