//! How the service reads its settings from environment values, once at
//! start-up: required secrets must be non-blank, numbers must parse, TTLs
//! must be positive, and `COOKIE_SECURE` is on only for the literal `true`.
use vstd::prelude::*;

use crate::text::{chars_of, str_eq, trim, trim_bounds};

verus! {

/// The value of a decimal digit character.
pub open spec fn digit_value(c: char) -> int {
    (c as u32) - ('0' as u32)
}

/// The number a string of decimal digits writes.
pub open spec fn digits_value(s: Seq<char>) -> int
    decreases s.len(),
{
    if s.len() == 0 {
        0
    } else {
        digits_value(s.drop_last()) * 10 + digit_value(s.last())
    }
}

/// Every character is a decimal digit.
pub open spec fn all_digits(s: Seq<char>) -> bool {
    forall|i: int| 0 <= i < s.len() ==> '0' <= #[trigger] s[i] && s[i] <= '9'
}

/// What `str::parse::<u64>` accepts: an optional `+`, then one or more
/// decimal digits whose number fits in 64 bits.
pub open spec fn parsed_u64(s: Seq<char>) -> Option<u64> {
    let body = if s.len() > 0 && s[0] == '+' { s.drop_first() } else { s };
    if body.len() == 0 || !all_digits(body) || digits_value(body) > u64::MAX {
        None
    } else {
        Some(digits_value(body) as u64)
    }
}

proof fn lemma_digits_value_nonneg(s: Seq<char>)
    requires
        all_digits(s),
    ensures
        digits_value(s) >= 0,
    decreases s.len(),
{
    if s.len() > 0 {
        lemma_digits_value_nonneg(s.drop_last());
    }
}

/// A decimal `u64` (`str::parse::<u64>`); nothing for anything else.
pub fn parse_u64(text: &str) -> (r: Option<u64>)
    ensures
        r == parsed_u64(text@),
{
    let cs = chars_of(text);
    let start: usize = if cs.len() > 0 && cs[0] == '+' { 1 } else { 0 };
    let ghost body = if cs@.len() > 0 && cs@[0] == '+' { cs@.drop_first() } else { cs@ };
    proof {
        assert(cs@.subrange(start as int, cs@.len() as int) =~= body);
    }
    if start == cs.len() {
        return None;
    }
    let mut value: u64 = 0;
    let mut i: usize = start;
    while i < cs.len()
        invariant
            start <= i <= cs@.len(),
            start < cs@.len(),
            cs@ == text@,
            body == (if cs@.len() > 0 && cs@[0] == '+' { cs@.drop_first() } else { cs@ }),
            start == (if cs@.len() > 0 && cs@[0] == '+' { 1int } else { 0int }),
            cs@.subrange(start as int, cs@.len() as int) == body,
            all_digits(cs@.subrange(start as int, i as int)),
            value == digits_value(cs@.subrange(start as int, i as int)),
        decreases cs@.len() - i,
    {
        let c = cs[i];
        let ghost prefix = cs@.subrange(start as int, i + 1);
        proof {
            assert(prefix.drop_last() =~= cs@.subrange(start as int, i as int));
            assert(prefix.last() == c);
        }
        if !('0' <= c && c <= '9') {
            proof {
                assert(body[i - start] == c);
                assert(!all_digits(body));
            }
            return None;
        }
        let d = (c as u32 - '0' as u32) as u64;
        proof {
            assert(all_digits(prefix)) by {
                assert forall|j: int| 0 <= j < prefix.len() implies '0' <= #[trigger] prefix[j] && prefix[j]
                    <= '9' by {
                    if j < prefix.len() - 1 {
                        assert(prefix[j] == cs@.subrange(start as int, i as int)[j]);
                    }
                }
            }
        }
        if value > (u64::MAX - d) / 10 {
            proof {
                // The digits so far already overflow once this one joins,
                // and more digits only make the number larger.
                assert(digits_value(prefix) == value * 10 + d);
                assert(value * 10 + d > u64::MAX) by (nonlinear_arith)
                    requires value > (u64::MAX - d) / 10, d <= 9;
                assert(body.take(prefix.len() as int) =~= prefix);
                lemma_digits_value_grows(body, prefix.len() as int);
            }
            return None;
        }
        value = value * 10 + d;
        i = i + 1;
    }
    proof {
        assert(cs@.subrange(start as int, cs@.len() as int) == body);
    }
    Some(value)
}

/// A longer run of digits is worth at least as much as its prefix (once all
/// of it is digits).
proof fn lemma_digits_value_grows(s: Seq<char>, k: int)
    requires
        0 <= k <= s.len(),
        all_digits(s.take(k)),
    ensures
        all_digits(s) ==> digits_value(s.take(k)) <= digits_value(s),
    decreases s.len() - k,
{
    if k < s.len() && all_digits(s) {
        lemma_digits_value_grows(s, k + 1);
        let t = s.take(k + 1);
        assert(t.drop_last() =~= s.take(k));
        lemma_digits_value_nonneg(s.take(k));
        assert(all_digits(s.take(k + 1)));
    } else if k == s.len() {
        assert(s.take(k) =~= s);
    }
}

/// A required secret: present and not blank (a blank secret is as
/// dangerous as a missing one).
pub open spec fn required_ok(value: Option<Seq<char>>) -> bool {
    match value {
        Some(v) => trim(v).len() != 0,
        None => false,
    }
}

/// The value of a required variable; nothing when absent or blank.
pub fn required(value: Option<&str>) -> (r: Option<String>)
    ensures
        r is Some <==> required_ok(
            match value {
                Some(v) => Some(v@),
                None => None,
            },
        ),
        r matches Some(s) ==> value matches Some(v) && s@ == v@,
{
    match value {
        Some(v) => {
            let cs = chars_of(v);
            let (from, to) = trim_bounds(&cs);
            if from < to {
                Some(v.to_string())
            } else {
                None
            }
        },
        None => None,
    }
}

/// An optional count where zero is allowed (zero turns a job off): the
/// default when absent, else the trimmed value as a `u64`.
pub fn optional_non_negative(value: Option<&str>, default: u64) -> (r: Result<u64, ()>)
    ensures
        value is None ==> r == Ok::<u64, ()>(default),
        value matches Some(v) ==> (match parsed_u64(trim(v@)) {
            Some(n) => r == Ok::<u64, ()>(n),
            None => r is Err,
        }),
{
    match value {
        None => Ok(default),
        Some(v) => {
            let cs = chars_of(v);
            let (from, to) = trim_bounds(&cs);
            let trimmed = crate::text::string_of(&cs, from, to);
            match parse_u64(trimmed.as_str()) {
                Some(n) => Ok(n),
                None => Err(()),
            }
        },
    }
}

/// An optional count that must be positive (a TTL of zero would make
/// sessions that are born expired): the default when absent.
pub fn optional_positive(value: Option<&str>, default: u64) -> (r: Result<u64, ()>)
    ensures
        value is None ==> r == Ok::<u64, ()>(default),
        value matches Some(v) ==> (match parsed_u64(trim(v@)) {
            Some(n) => if n > 0 {
                r == Ok::<u64, ()>(n)
            } else {
                r is Err
            },
            None => r is Err,
        }),
{
    match value {
        None => Ok(default),
        Some(v) => {
            let cs = chars_of(v);
            let (from, to) = trim_bounds(&cs);
            let trimmed = crate::text::string_of(&cs, from, to);
            match parse_u64(trimmed.as_str()) {
                Some(n) => if n > 0 {
                    Ok(n)
                } else {
                    Err(())
                },
                None => Err(()),
            }
        },
    }
}

/// `COOKIE_SECURE` is on only for exactly `true`: `TRUE`, `1` or `yes` are
/// off.
pub fn cookie_secure(value: Option<&str>) -> (r: bool)
    ensures
        r == (value matches Some(v) && v@ == "true"@),
{
    match value {
        Some(v) => str_eq(v, "true"),
        None => false,
    }
}

} // verus!
