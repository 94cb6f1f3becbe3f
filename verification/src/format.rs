//! Brazilian-Portuguese number formatting for the screens: thousands with a
//! dot, decimals with a comma, the sign before the currency symbol, and the
//! compact scale ("R$ 6,51 tri") of the market aggregates.
use vstd::prelude::*;

use crate::i18n::Strings;
use crate::money::{
    fixed_digits, fixed_text, fraction_digits, le, less_eq, lt, num, plain_digits, plain_text,
    checked_div, decimal_checked_div, normalized, pow10, round_dp, rounded, whole_digits, digits, padded_digits, zeros, Money,
};
use crate::text::{chars_of, push_char, push_str};

verus! {

/// What a market aggregate shows when the source published nothing (zero).
pub const NOT_PUBLISHED: &'static str = "—";

/// The spec twin of `NOT_PUBLISHED`.
pub open spec fn not_published() -> Seq<char> {
    seq!['—']
}

/// `c` is one of `0`..`9`.
pub open spec fn is_digit(c: char) -> bool {
    '0' <= c && c <= '9'
}

/// Groups of three digits from the right, joined by dots: `1234567` becomes
/// `1.234.567`.
pub open spec fn grouped_thousands(s: Seq<char>) -> Seq<char>
    decreases s.len(),
{
    if s.len() <= 3 {
        s
    } else {
        grouped_thousands(s.take(s.len() - 3)) + seq!['.'] + s.skip(s.len() - 3)
    }
}

/// The fraction with trailing zeros dropped, never below two digits.
pub open spec fn trimmed_fraction(f: Seq<char>) -> Seq<char>
    decreases f.len(),
{
    if f.len() > 2 && f.last() == '0' {
        trimmed_fraction(f.drop_last())
    } else {
        f
    }
}

/// The absolute value of `v` in pt-BR digits with `places` decimal places
/// (cut, not rounded), the fraction trimmed when `trim` is set.
pub open spec fn ptbr_text(v: Money, places: nat, trim: bool) -> Seq<char> {
    let m = v.magnitude as nat;
    let s = v.scale as nat;
    let frac = if places == 0 { Seq::<char>::empty() } else { fraction_digits(m, s, places) };
    let frac = if trim { trimmed_fraction(frac) } else { frac };
    grouped_thousands(whole_digits(m, s)) + seq![','] + frac
}

/// `"- "` for a value whose sign flag is set, else nothing.
pub open spec fn sign_text(v: Money) -> Seq<char> {
    if v.negative {
        seq!['-', ' ']
    } else {
        Seq::empty()
    }
}

/// `R$` amount: the sign, the currency symbol, then the digits.
pub open spec fn brl_text(v: Money, places: nat, trim: bool) -> Seq<char> {
    sign_text(v) + seq!['R', '$', ' '] + ptbr_text(v, places, trim)
}

/// The absolute value of `v`.
pub open spec fn magnitude_of(v: Money) -> Money {
    Money { magnitude: v.magnitude, negative: false, scale: v.scale }
}

/// `10^k` as a whole decimal.
pub open spec fn ten_to(k: nat) -> Money {
    Money { magnitude: pow10(k) as u128, negative: false, scale: 0 }
}

/// The largest of 12, 9, 6 and 3 with `10^k <= |v|`, if any.
pub open spec fn compact_exponent(v: Money) -> Option<nat> {
    if less_eq(ten_to(12), magnitude_of(v)) {
        Some(12)
    } else if less_eq(ten_to(9), magnitude_of(v)) {
        Some(9)
    } else if less_eq(ten_to(6), magnitude_of(v)) {
        Some(6)
    } else if less_eq(ten_to(3), magnitude_of(v)) {
        Some(3)
    } else {
        None
    }
}

/// The word that names the scale `10^k`.
pub open spec fn unit_word(t: Strings, k: nat) -> Seq<char> {
    if k == 12 {
        t.unit_trillion@
    } else if k == 9 {
        t.unit_billion@
    } else if k == 6 {
        t.unit_million@
    } else {
        t.unit_thousand@
    }
}

/// Every division that the compact form of `v` would make succeeds.
pub open spec fn compact_divides(v: Money) -> bool {
    compact_exponent(v) matches Some(k) ==> decimal_checked_div(v, ten_to(k)) is Some
}

/// Digits and unit of the compact form: the value divided by its scale and
/// rounded to two places (midpoints to even), or the plain value below a
/// thousand.
pub open spec fn compact_pair(v: Money, t: Strings) -> (Seq<char>, Seq<char>) {
    match compact_exponent(v) {
        Some(k) => (
            ptbr_text(rounded(decimal_checked_div(v, ten_to(k)).unwrap(), 2), 2, false),
            seq![' '] + unit_word(t, k),
        ),
        None => (ptbr_text(v, 2, false), Seq::empty()),
    }
}

/// The compact `R$` form; a dash for zero.
pub open spec fn compact_brl_text(v: Money, t: Strings) -> Seq<char> {
    if num(v) == 0 {
        not_published()
    } else {
        sign_text(v) + seq!['R', '$', ' '] + compact_pair(v, t).0 + compact_pair(v, t).1
    }
}

/// The compact form without currency; a dash for zero.
pub open spec fn compact_units_text(v: Money, t: Strings) -> Seq<char> {
    if num(v) == 0 {
        not_published()
    } else {
        sign_text(v) + compact_pair(v, t).0 + compact_pair(v, t).1
    }
}

/// A percentage's absolute value with two places (cut) and a decimal comma.
pub open spec fn percent_text(v: Money) -> Seq<char> {
    whole_digits(v.magnitude as nat, v.scale as nat) + seq![','] + fraction_digits(
        v.magnitude as nat,
        v.scale as nat,
        2,
    )
}

/// A decimal in full, trailing zeros dropped, with a decimal comma.
pub open spec fn comma_decimal_text(v: Money) -> Seq<char> {
    plain_digits(normalized(v)).map_values(|c: char| if c == '.' { ',' } else { c })
}

proof fn lemma_digits_have_no_dot(n: nat)
    ensures
        forall|i: int| 0 <= i < crate::money::digits(n).len() ==> crate::money::digits(n)[i] != '.',
    decreases n,
{
    if n != 0 {
        lemma_digits_have_no_dot(n / 10);
        let d = (n % 10) as nat;
        let prev = crate::money::digits(n / 10);
        let ds = crate::money::digits(n);
        assert(ds == prev.push(crate::money::digit_char(d)));
        assert(crate::money::digit_char(d) != '.');
        assert forall|i: int| 0 <= i < ds.len() implies ds[i] != '.' by {
            if i < prev.len() {
                assert(ds[i] == prev[i]);
            }
        }
    }
}

proof fn lemma_whole_digits_have_no_dot(m: nat, s: nat)
    ensures
        forall|i: int| 0 <= i < whole_digits(m, s).len() ==> whole_digits(m, s)[i] != '.',
        whole_digits(m, s).len() >= 1,
{
    lemma_digits_have_no_dot(m);
    let d = crate::money::digits(m);
    let p = crate::money::padded_digits(m, s);
    assert forall|i: int| 0 <= i < p.len() implies p[i] != '.' by {
        if d.len() < s {
            let z = crate::money::zeros((s - d.len()) as nat);
            assert(p == z + d);
            if i < z.len() {
                assert(p[i] == z[i]);
            } else {
                assert(p[i] == d[i - z.len()]);
            }
        }
    }
}

proof fn lemma_grouped_step(s: Seq<char>)
    requires
        s.len() > 3,
    ensures
        grouped_thousands(s) == grouped_thousands(s.take(s.len() - 3)) + seq!['.'] + s.skip(
            s.len() - 3,
        ),
{
}

/// The grouping of `s` as built left to right, one character at a time: a
/// dot goes before every character that starts a group of three counted from
/// the right end of `s`.
spec fn grouped_prefix(s: Seq<char>, i: nat) -> Seq<char>
    decreases i,
{
    if i == 0 {
        Seq::empty()
    } else {
        let j = (i - 1) as nat;
        let before = grouped_prefix(s, j);
        if j > 0 && (s.len() - j) % 3 == 0 {
            before.push('.').push(s[j as int])
        } else {
            before.push(s[j as int])
        }
    }
}

proof fn lemma_grouped_prefix_shared(s: Seq<char>, t: Seq<char>, i: nat)
    requires
        i <= t.len(),
        t.len() + 3 == s.len(),
        t == s.take(t.len() as int),
    ensures
        grouped_prefix(s, i) == grouped_prefix(t, i),
    decreases i,
{
    if i > 0 {
        let j = (i - 1) as nat;
        lemma_grouped_prefix_shared(s, t, j);
        assert((s.len() - j) % 3 == (t.len() - j) % 3);
        assert(s[j as int] == t[j as int]);
    }
}

proof fn lemma_grouped_prefix_is_grouping(s: Seq<char>)
    ensures
        grouped_prefix(s, s.len()) == grouped_thousands(s),
    decreases s.len(),
{
    let n = s.len();
    if n <= 3 {
        assert forall|i: nat| i <= n implies grouped_prefix(s, i) == s.take(i as int) by {
            lemma_grouped_prefix_small(s, i);
        }
        assert(s.take(n as int) == s);
    } else {
        let t = s.take(n - 3);
        lemma_grouped_prefix_is_grouping(t);
        lemma_grouped_prefix_shared(s, t, t.len());
        let g = grouped_prefix(s, t.len());
        assert(g == grouped_thousands(t));
        let tl = t.len();
        let a: int = tl as int;
        assert(tl > 0);
        assert(grouped_prefix(s, (tl + 1) as nat) == g.push('.').push(s[a]));
        assert(grouped_prefix(s, (tl + 2) as nat) == g.push('.').push(s[a]).push(s[a + 1]));
        assert(grouped_prefix(s, (tl + 3) as nat) == g.push('.').push(s[a]).push(s[a + 1]).push(
            s[a + 2],
        ));
        assert(s.skip(n - 3) =~= seq![s[a], s[a + 1], s[a + 2]]);
        assert(g.push('.').push(s[a]).push(s[a + 1]).push(s[a + 2]) =~= g + seq!['.'] + s.skip(
            n - 3,
        ));
        lemma_grouped_step(s);
    }
}

proof fn lemma_grouped_prefix_small(s: Seq<char>, i: nat)
    requires
        s.len() <= 3,
        i <= s.len(),
    ensures
        grouped_prefix(s, i) == s.take(i as int),
    decreases i,
{
    if i > 0 {
        let j = (i - 1) as nat;
        lemma_grouped_prefix_small(s, j);
        assert(!(j > 0 && (s.len() - j) % 3 == 0));
        assert(s.take(i as int) =~= s.take(j as int).push(s[j as int]));
    }
}

/// `"- "` when the sign flag is set (also on a negative zero), else `""`.
pub fn ptbr_sign(value: &Money) -> (r: &'static str)
    ensures
        r@ == sign_text(*value),
{
    if value.negative {
        proof {
            reveal_strlit("- ");
        }
        "- "
    } else {
        proof {
            reveal_strlit("");
        }
        ""
    }
}

/// Past the scale, more places only add zeros.
proof fn lemma_fixed_digits_pad(m: nat, sc: nat, p: nat, k: nat)
    requires
        1 <= p,
        sc <= p,
    ensures
        fixed_digits(m, sc, p) + zeros(k) == fixed_digits(m, sc, p + k),
{
    let d = padded_digits(m, sc);
    assert(d.len() >= sc) by {
        if digits(m).len() < sc {
            assert(d.len() == sc);
        }
    }
    let f = d.skip(d.len() - sc);
    assert(f.len() == sc);
    assert(fraction_digits(m, sc, p) =~= f + zeros((p - sc) as nat));
    assert(fraction_digits(m, sc, p + k) =~= f + zeros((p + k - sc) as nat));
    assert(zeros((p - sc) as nat) + zeros(k) =~= zeros((p + k - sc) as nat));
    assert(fixed_digits(m, sc, p) + zeros(k) =~= fixed_digits(m, sc, p + k));
}

/// The absolute value in pt-BR digits: thousands with dots, a decimal comma,
/// `places` decimals cut (not rounded) from the value; with `trim`, trailing
/// zeros of the fraction dropped down to two.
pub fn ptbr_digits(value: &Money, places: usize, trim: bool) -> (r: String)
    requires
        value.wf(),
    ensures
        r@ == ptbr_text(*value, places as nat, trim),
{
    let ghost m = value.magnitude as nat;
    let ghost sc = value.scale as nat;
    // Past the 28 places a `Decimal` holds, the fraction is zeros.
    let capped: usize = if places > 28 { 28 } else { places };
    let mut raw = fixed_text(&value.abs(), capped);
    let mut k: usize = capped;
    while k < places
        invariant
            capped <= k <= places,
            capped == (if places > 28 { 28 } else { places }),
            raw@ == fixed_digits(m, sc, capped as nat) + zeros((k - capped) as nat),
        decreases places - k,
    {
        push_char(&mut raw, '0');
        proof {
            assert(zeros((k - capped) as nat).push('0') =~= zeros((k + 1 - capped) as nat));
            assert(raw@ =~= fixed_digits(m, sc, capped as nat) + zeros((k + 1 - capped) as nat));
        }
        k = k + 1;
    }
    proof {
        if places > 28 {
            lemma_fixed_digits_pad(m, sc, 28, (places - 28) as nat);
        } else {
            assert(zeros(0) =~= Seq::<char>::empty());
            assert(raw@ =~= fixed_digits(m, sc, places as nat));
        }
    }
    let cs = chars_of(raw.as_str());
    proof {
        assert(cs@ =~= fixed_digits(m, sc, places as nat));
    }
    proof {
        lemma_whole_digits_have_no_dot(m, sc);
    }
    let ghost whole = whole_digits(m, sc);
    let ghost frac = if places == 0 {
        Seq::<char>::empty()
    } else {
        fraction_digits(m, sc, places as nat)
    };
    proof {
        if places == 0 {
            assert(cs@ == whole);
        } else {
            assert(cs@ == whole + seq!['.'] + frac);
        }
    }
    // The integer part ends at the first dot, if any.
    let mut dot: usize = 0;
    while dot < cs.len() && cs[dot] != '.'
        invariant
            dot <= cs.len(),
            dot <= whole.len(),
            cs@ == (if places == 0 { whole } else { whole + seq!['.'] + frac }),
            forall|i: int| 0 <= i < whole.len() ==> whole[i] != '.',
        decreases cs.len() - dot,
    {
        proof {
            if dot == whole.len() {
                assert(places != 0);
                assert(cs@[dot as int] == '.');
            }
        }
        dot = dot + 1;
    }
    proof {
        if dot < whole.len() {
            assert(cs@[dot as int] == whole[dot as int]);
        }
        assert(dot == whole.len());
        assert(cs@.take(dot as int) =~= whole);
        if places != 0 {
            assert(cs@.skip(dot + 1) =~= frac);
        }
    }
    // Thousands separators, left to right.
    let mut grouped = String::new();
    let mut i: usize = 0;
    while i < dot
        invariant
            i <= dot <= cs.len(),
            cs@.take(dot as int) == whole,
            grouped@ == grouped_prefix(whole, i as nat),
        decreases dot - i,
    {
        if i > 0 && (dot - i) % 3 == 0 {
            push_char(&mut grouped, '.');
        }
        push_char(&mut grouped, cs[i]);
        proof {
            assert(cs@[i as int] == whole[i as int]);
        }
        i = i + 1;
    }
    proof {
        lemma_grouped_prefix_is_grouping(whole);
    }
    // The fraction, trimmed if asked.
    let mut end: usize = cs.len();
    let start: usize = if dot < cs.len() { dot + 1 } else { dot };
    proof {
        assert(cs@.subrange(start as int, end as int) =~= frac);
    }
    if trim {
        while end - start > 2 && cs[end - 1] == '0'
            invariant
                start <= end <= cs.len(),
                trimmed_fraction(cs@.subrange(start as int, end as int)) == trimmed_fraction(frac),
            decreases end,
        {
            proof {
                assert(cs@.subrange(start as int, end - 1) =~= cs@.subrange(
                    start as int,
                    end as int,
                ).drop_last());
            }
            end = end - 1;
        }
    }
    let mut out = grouped;
    push_char(&mut out, ',');
    let mut k: usize = start;
    while k < end
        invariant
            start <= k <= end <= cs.len(),
            out@ == grouped_thousands(whole) + seq![','] + cs@.subrange(start as int, k as int),
        decreases end - k,
    {
        push_char(&mut out, cs[k]);
        proof {
            assert(cs@.subrange(start as int, k + 1) =~= cs@.subrange(start as int, k as int).push(
                cs@[k as int],
            ));
        }
        k = k + 1;
    }
    proof {
        if trim {
            assert(cs@.subrange(start as int, end as int) == trimmed_fraction(frac)) by {
                let f = cs@.subrange(start as int, end as int);
                assert(!(f.len() > 2 && f.last() == '0'));
            }
        }
    }
    out
}

/// `s` with every `.` turned into `,`.
pub open spec fn dots_to_commas(s: Seq<char>) -> Seq<char> {
    s.map_values(|c: char| if c == '.' { ',' } else { c })
}

/// `s` with every `.` replaced by `,`.
fn replace_dots(s: &str) -> (r: String)
    ensures
        r@ == dots_to_commas(s@),
{
    let cs = chars_of(s);
    let mut out = String::new();
    let mut i: usize = 0;
    while i < cs.len()
        invariant
            i <= cs.len(),
            cs@ == s@,
            out@ == dots_to_commas(cs@.take(i as int)),
        decreases cs.len() - i,
    {
        let c = cs[i];
        if c == '.' {
            push_char(&mut out, ',');
        } else {
            push_char(&mut out, c);
        }
        proof {
            assert(cs@.take(i + 1) =~= cs@.take(i as int).push(c));
            assert(dots_to_commas(cs@.take(i + 1)) =~= dots_to_commas(cs@.take(i as int)).push(
                if c == '.' { ',' } else { c },
            ));
        }
        i = i + 1;
    }
    proof {
        assert(cs@.take(cs.len() as int) =~= cs@);
    }
    out
}

/// `R$` amount with `places` decimals: sign, symbol, pt-BR digits.
pub fn format_brl(value: &Money, places: usize, trim: bool) -> (r: String)
    requires
        value.wf(),
    ensures
        r@ == brl_text(*value, places as nat, trim),
{
    let mut out = String::new();
    push_str(&mut out, ptbr_sign(value));
    proof {
        reveal_strlit("R$ ");
    }
    push_str(&mut out, "R$ ");
    let digits = ptbr_digits(value, places, trim);
    push_str(&mut out, digits.as_str());
    proof {
        assert(out@ =~= brl_text(*value, places as nat, trim));
    }
    out
}

/// Money on the screens: `R$` with two decimals.
pub fn money(value: &Money) -> (r: String)
    requires
        value.wf(),
    ensures
        r@ == brl_text(*value, 2, false),
{
    format_brl(value, 2, false)
}

/// A market quote: two decimals from one real up, else up to eight with the
/// trailing zeros dropped (never a misleading `R$ 0,00`).
pub fn market_price(value: &Money) -> (r: String)
    requires
        value.wf(),
    ensures
        r@ == (if less_eq(crate::money::one_spec(), magnitude_of(*value)) {
            brl_text(*value, 2, false)
        } else {
            brl_text(*value, 8, true)
        }),
{
    let unit = crate::money::one();
    let size = value.abs();
    if le(&unit, &size) {
        format_brl(value, 2, false)
    } else {
        format_brl(value, 8, true)
    }
}

/// A quantity in full, trailing zeros dropped (`normalize`, then `Display`).
pub fn quantity(value: &Money) -> (r: String)
    requires
        value.wf(),
    ensures
        r@ == plain_digits(normalized(*value)),
{
    let n = value.normalize();
    plain_text(&n)
}

/// `value >= 0`.
pub fn nonnegative(value: &Money) -> (r: bool)
    requires
        value.wf(),
    ensures
        r == (num(*value) >= 0),
{
    let zero = crate::money::zero();
    proof {
        assert(pow10(0) == 1);
        assert(pow10(value.scale as nat) > 0) by {
            crate::money::lemma_pow10_positive(value.scale as nat);
        }
        assert((num(*value) >= 0) == (num(*value) * 1 >= 0 * pow10(value.scale as nat))) by (nonlinear_arith)
            requires pow10(value.scale as nat) > 0;
    }
    le(&zero, value)
}

/// `value > 0`.
pub fn positive(value: &Money) -> (r: bool)
    requires
        value.wf(),
    ensures
        r == (num(*value) > 0),
{
    let zero = crate::money::zero();
    proof {
        assert(pow10(0) == 1);
        assert(pow10(value.scale as nat) > 0) by {
            crate::money::lemma_pow10_positive(value.scale as nat);
        }
        assert((num(*value) > 0) == (0 * pow10(value.scale as nat) < num(*value) * 1)) by (nonlinear_arith)
            requires pow10(value.scale as nat) > 0;
    }
    lt(&zero, value)
}

/// `value < 0`.
pub fn negative(value: &Money) -> (r: bool)
    requires
        value.wf(),
    ensures
        r == (num(*value) < 0),
{
    let zero = crate::money::zero();
    proof {
        assert(pow10(0) == 1);
        assert(pow10(value.scale as nat) > 0) by {
            crate::money::lemma_pow10_positive(value.scale as nat);
        }
        assert((num(*value) < 0) == (num(*value) * 1 < 0 * pow10(value.scale as nat))) by (nonlinear_arith)
            requires pow10(value.scale as nat) > 0;
    }
    lt(value, &zero)
}

/// A percentage's absolute value, two decimals (cut), decimal comma. The
/// sign is the page's to show, next to the arrow.
pub fn percent(value: &Money) -> (r: String)
    requires
        value.wf(),
    ensures
        r@ == dots_to_commas(fixed_digits(value.magnitude as nat, value.scale as nat, 2)),
{
    let raw = fixed_text(&value.abs(), 2);
    proof {
        assert(raw@ =~= fixed_digits(value.magnitude as nat, value.scale as nat, 2));
    }
    replace_dots(raw.as_str())
}

/// A decimal in full for the statement export: trailing zeros dropped and a
/// decimal comma.
pub fn decimal_ptbr(value: &Money) -> (r: String)
    requires
        value.wf(),
    ensures
        r@ == dots_to_commas(plain_digits(normalized(*value))),
{
    let n = value.normalize();
    let raw = plain_text(&n);
    replace_dots(raw.as_str())
}

/// `10^k` as a whole decimal.
pub fn power_of_ten(k: u32) -> (r: Money)
    requires
        k <= 18,
    ensures
        r == ten_to(k as nat),
        r.wf(),
{
    let mut p: u128 = 1;
    let mut i: u32 = 0;
    while i < k
        invariant
            i <= k <= 18,
            p == pow10(i as nat),
            p <= 1_000_000_000_000_000_000u128,
        decreases k - i,
    {
        proof {
            crate::money::lemma_pow10_monotone(i as nat + 1, 18);
            assert(pow10(18) == 1_000_000_000_000_000_000nat) by {
                reveal_with_fuel(pow10, 19);
            }
        }
        p = p * 10;
        i = i + 1;
    }
    proof {
        assert(1_000_000_000_000_000_000u128 <= crate::money::MAX_MAGNITUDE);
    }
    Money { magnitude: p, negative: false, scale: 0 }
}

/// Which of the scales 10^12, 10^9, 10^6, 10^3 the compact form uses.
fn compact_scale(value: &Money) -> (r: Option<u32>)
    requires
        value.wf(),
    ensures
        r matches Some(k) ==> compact_exponent(*value) == Some(k as nat) && k <= 12,
        r is None ==> compact_exponent(*value) is None,
{
    let size = value.abs();
    let t12 = power_of_ten(12);
    if le(&t12, &size) {
        return Some(12);
    }
    let t9 = power_of_ten(9);
    if le(&t9, &size) {
        return Some(9);
    }
    let t6 = power_of_ten(6);
    if le(&t6, &size) {
        return Some(6);
    }
    let t3 = power_of_ten(3);
    if le(&t3, &size) {
        return Some(3);
    }
    None
}

/// The unit word for the scale `10^k`.
fn unit_for(t: &Strings, k: u32) -> (r: &'static str)
    ensures
        r@ == unit_word(*t, k as nat),
{
    if k == 12 {
        t.unit_trillion
    } else if k == 9 {
        t.unit_billion
    } else if k == 6 {
        t.unit_million
    } else {
        t.unit_thousand
    }
}

/// Digits and unit of the compact form of a market aggregate. The value is
/// divided by its scale and rounded to two places before it is written (the
/// written form cuts, so 98,765 mi must round up to 98,77 mi first).
pub fn compact_parts(value: &Money, t: &Strings) -> (r: (String, String))
    requires
        value.wf(),
        compact_divides(*value),
    ensures
        r.0@ == compact_pair(*value, *t).0,
        r.1@ == compact_pair(*value, *t).1,
{
    match compact_scale(value) {
        Some(k) => {
            let factor = power_of_ten(k);
            let q = checked_div(value, &factor);
            let q = q.unwrap();
            let r2 = round_dp(&q, 2);
            let digits = ptbr_digits(&r2, 2, false);
            let mut unit = String::new();
            push_char(&mut unit, ' ');
            push_str(&mut unit, unit_for(t, k));
            proof {
                assert(unit@ =~= seq![' '] + unit_word(*t, k as nat));
            }
            (digits, unit)
        },
        None => (ptbr_digits(value, 2, false), String::new()),
    }
}

/// A market aggregate in `R$`, compact ("R$ 6,51 tri"); a dash when the
/// source published nothing (zero).
pub fn compact_brl(value: &Money, t: &Strings) -> (r: String)
    requires
        value.wf(),
        compact_divides(*value),
    ensures
        r@ == compact_brl_text(*value, *t),
{
    if value.is_zero() {
        proof {
            reveal_strlit("—");
        }
        return NOT_PUBLISHED.to_string();
    }
    let (digits, unit) = compact_parts(value, t);
    let mut out = String::new();
    push_str(&mut out, ptbr_sign(value));
    proof {
        reveal_strlit("R$ ");
    }
    push_str(&mut out, "R$ ");
    push_str(&mut out, digits.as_str());
    push_str(&mut out, unit.as_str());
    proof {
        assert(out@ =~= compact_brl_text(*value, *t));
    }
    out
}

/// A market aggregate counted in units (circulating supply), compact; a dash
/// when the source published nothing.
pub fn compact_units(value: &Money, t: &Strings) -> (r: String)
    requires
        value.wf(),
        compact_divides(*value),
    ensures
        r@ == compact_units_text(*value, *t),
{
    if value.is_zero() {
        proof {
            reveal_strlit("—");
        }
        return NOT_PUBLISHED.to_string();
    }
    let (digits, unit) = compact_parts(value, t);
    let mut out = String::new();
    push_str(&mut out, ptbr_sign(value));
    push_str(&mut out, digits.as_str());
    push_str(&mut out, unit.as_str());
    proof {
        assert(out@ =~= compact_units_text(*value, *t));
    }
    out
}

/// Whether the compact forms of `value` can be written: the one division
/// they make is carried out, and its outcome tested.
pub fn compact_is_writable(value: &Money) -> (r: bool)
    requires
        value.wf(),
    ensures
        r == compact_divides(*value),
{
    match compact_scale(value) {
        Some(k) => {
            let factor = power_of_ten(k);
            checked_div(value, &factor).is_some()
        },
        None => true,
    }
}

/// `compact_brl` where its division succeeds; `None` where it would not.
pub fn try_compact_brl(value: &Money, t: &Strings) -> (r: Option<String>)
    requires
        value.wf(),
    ensures
        r is Some <==> compact_divides(*value),
        r matches Some(s) ==> s@ == compact_brl_text(*value, *t),
{
    if compact_is_writable(value) {
        Some(compact_brl(value, t))
    } else {
        None
    }
}

/// `compact_units` where its division succeeds; `None` where it would not.
pub fn try_compact_units(value: &Money, t: &Strings) -> (r: Option<String>)
    requires
        value.wf(),
    ensures
        r is Some <==> compact_divides(*value),
        r matches Some(s) ==> s@ == compact_units_text(*value, *t),
{
    if compact_is_writable(value) {
        Some(compact_units(value, t))
    } else {
        None
    }
}

} // verus!
