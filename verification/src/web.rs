//! What the web layer decides about requests and links: the return path of
//! the language switch, the market links and their query escaping, the
//! search term, the cache tags of the static files, htmx partial requests,
//! the request id and the security headers.
use vstd::prelude::*;
use vstd::string::StringSliceAdditionalSpecFns;

use crate::market::{range_tag, Range};
use crate::text::{chars_of, lowercase, push_char, push_str, string_of, to_lowercase, trim, trim_bounds};

verus! {

/// A local absolute path: starts with `/` but not with `//`.
pub open spec fn is_local_path(p: Seq<char>) -> bool {
    p.len() >= 1 && p[0] == '/' && !(p.len() >= 2 && p[1] == '/')
}

/// Where the language switch returns: the requested path when it is local
/// and absolute, else the root.
pub open spec fn safe_next(next: Option<Seq<char>>) -> Seq<char> {
    match next {
        Some(p) => if is_local_path(p) { p } else { seq!['/'] },
        None => seq!['/'],
    }
}

/// The return path after a language switch: only local absolute paths
/// (`/assets`) are followed; a protocol-relative `//host`, a full URL or
/// anything else falls back to `/`, so `?next=` never opens a redirect to
/// another site.
pub fn sanitized_next<'a>(next: Option<&'a str>) -> (r: &'a str)
    ensures
        r@ == safe_next(
            match next {
                Some(p) => Some(p@),
                None => None,
            },
        ),
        is_local_path(r@),
{
    proof {
        reveal_strlit("/");
        assert("/"@ =~= seq!['/']);
    }
    match next {
        Some(path) => {
            let cs = chars_of(path);
            if cs.len() >= 1 && cs[0] == '/' && !(cs.len() >= 2 && cs[1] == '/') {
                path
            } else {
                "/"
            }
        },
        None => "/",
    }
}

/// A byte that RFC 3986 leaves unreserved: letters, digits, `-`, `.`, `_`,
/// `~`.
pub open spec fn unreserved(b: u8) -> bool {
    (65 <= b && b <= 90) || (97 <= b && b <= 122) || (48 <= b && b <= 57) || b == 45 || b == 46
        || b == 95 || b == 126
}

/// The hexadecimal digit of `n < 16`, upper case when `upper`.
pub open spec fn hex_char(n: nat, upper: bool) -> char {
    if n < 10 {
        crate::money::digit_char(n)
    } else if n == 10 {
        if upper { 'A' } else { 'a' }
    } else if n == 11 {
        if upper { 'B' } else { 'b' }
    } else if n == 12 {
        if upper { 'C' } else { 'c' }
    } else if n == 13 {
        if upper { 'D' } else { 'd' }
    } else if n == 14 {
        if upper { 'E' } else { 'e' }
    } else {
        if upper { 'F' } else { 'f' }
    }
}

/// How one byte goes into a query string: itself when unreserved, else `%`
/// and two upper-case hex digits.
pub open spec fn escape_byte(b: u8) -> Seq<char> {
    if unreserved(b) {
        seq![b as char]
    } else {
        seq!['%', hex_char((b / 16) as nat, true), hex_char((b % 16) as nat, true)]
    }
}

/// The percent-encoding of a byte string.
pub open spec fn escaped(bs: Seq<u8>) -> Seq<char>
    decreases bs.len(),
{
    if bs.len() == 0 {
        Seq::empty()
    } else {
        escape_byte(bs[0]) + escaped(bs.skip(1))
    }
}

/// A character that may appear in an escaped query value.
pub open spec fn query_safe(c: char) -> bool {
    ('A' <= c && c <= 'Z') || ('a' <= c && c <= 'z') || ('0' <= c && c <= '9') || c == '-' || c
        == '.' || c == '_' || c == '~' || c == '%'
}

proof fn lemma_escaped_push(bs: Seq<u8>, b: u8)
    ensures
        escaped(bs.push(b)) == escaped(bs) + escape_byte(b),
    decreases bs.len(),
{
    if bs.len() == 0 {
        assert(bs.push(b).skip(1) =~= Seq::<u8>::empty());
        assert(escaped(bs.push(b)) == escape_byte(b) + escaped(Seq::<u8>::empty()));
        assert(escape_byte(b) + Seq::<char>::empty() =~= escape_byte(b));
        assert(Seq::<char>::empty() + escape_byte(b) =~= escape_byte(b));
    } else {
        lemma_escaped_push(bs.skip(1), b);
        assert(bs.push(b).skip(1) =~= bs.skip(1).push(b));
        assert(bs.push(b)[0] == bs[0]);
        assert(escape_byte(bs[0]) + (escaped(bs.skip(1)) + escape_byte(b)) =~= (escape_byte(bs[0])
            + escaped(bs.skip(1))) + escape_byte(b));
    }
}

proof fn lemma_escape_byte_safe(b: u8)
    ensures
        forall|i: int| 0 <= i < escape_byte(b).len() ==> query_safe(#[trigger] escape_byte(b)[i]),
{
    let hi = (b / 16) as nat;
    let lo = (b % 16) as nat;
    assert(hi < 16 && lo < 16);
    assert(query_safe(hex_char(hi, true)));
    assert(query_safe(hex_char(lo, true)));
}

/// The upper-case hex digit of `n < 16`.
fn hex_digit(n: u8, upper: bool) -> (c: char)
    requires
        n < 16,
    ensures
        c == hex_char(n as nat, upper),
{
    if n < 10 {
        let c = (48u8 + n) as char;
        proof {
            assert(c == crate::money::digit_char(n as nat));
        }
        c
    } else if upper {
        (55u8 + n) as char
    } else {
        (87u8 + n) as char
    }
}

/// Percent-encoding of what goes into a query string: the RFC 3986
/// unreserved bytes stay, every other byte of the UTF-8 text (space, accents,
/// `&`, `=`) becomes `%XX`, so free text never splits the query.
pub fn query_escape(value: &str) -> (r: String)
    ensures
        r@ == escaped(utf8_of(value)),
        forall|i: int| 0 <= i < r@.len() ==> query_safe(#[trigger] r@[i]),
{
    let bytes = value.as_bytes();
    let mut escaped_text = String::new();
    let mut i: usize = 0;
    while i < bytes.len()
        invariant
            i <= bytes@.len(),
            bytes@ == utf8_of(value),
            escaped_text@ == escaped(bytes@.take(i as int)),
            forall|j: int| 0 <= j < escaped_text@.len() ==> query_safe(#[trigger] escaped_text@[j]),
        decreases bytes@.len() - i,
    {
        let byte = bytes[i];
        let ghost before = escaped_text@;
        if (65 <= byte && byte <= 90) || (97 <= byte && byte <= 122) || (48 <= byte && byte <= 57)
            || byte == 45 || byte == 46 || byte == 95 || byte == 126 {
            push_char(&mut escaped_text, byte as char);
        } else {
            push_char(&mut escaped_text, '%');
            push_char(&mut escaped_text, hex_digit(byte / 16, true));
            push_char(&mut escaped_text, hex_digit(byte % 16, true));
        }
        proof {
            assert(escaped_text@ =~= before + escape_byte(byte));
            lemma_escaped_push(bytes@.take(i as int), byte);
            assert(bytes@.take(i + 1) =~= bytes@.take(i as int).push(byte));
            lemma_escape_byte_safe(byte);
            assert forall|j: int| 0 <= j < escaped_text@.len() implies query_safe(
                #[trigger] escaped_text@[j],
            ) by {
                if j >= before.len() {
                    assert(escaped_text@[j] == escape_byte(byte)[j - before.len()]);
                }
            }
        }
        i = i + 1;
    }
    proof {
        assert(bytes@.take(bytes@.len() as int) =~= bytes@);
    }
    escaped_text
}

/// The value of a hexadecimal digit.
pub open spec fn hex_value(c: char) -> int {
    if '0' <= c && c <= '9' {
        (c as u32) - ('0' as u32)
    } else if 'A' <= c && c <= 'F' {
        (c as u32) - ('A' as u32) + 10
    } else if 'a' <= c && c <= 'f' {
        (c as u32) - ('a' as u32) + 10
    } else {
        0
    }
}

/// Percent-decoding: `%XX` is the byte `0xXX`, any other character its own
/// code.
pub open spec fn unescaped(cs: Seq<char>) -> Seq<u8>
    decreases cs.len(),
{
    if cs.len() == 0 {
        Seq::empty()
    } else if cs[0] == '%' && cs.len() >= 3 {
        seq![(hex_value(cs[1]) * 16 + hex_value(cs[2])) as u8] + unescaped(cs.skip(3))
    } else {
        seq![cs[0] as u8] + unescaped(cs.skip(1))
    }
}

proof fn lemma_hex_round_trip(n: nat)
    requires
        n < 16,
    ensures
        hex_value(hex_char(n, true)) == n,
{
}

/// Decoding the escaped bytes gives the bytes back: what goes into a link
/// is exactly what the server reads out of it.
pub proof fn law_query_escape_decodes_back(bs: Seq<u8>)
    ensures
        unescaped(escaped(bs)) == bs,
    decreases bs.len(),
{
    if bs.len() > 0 {
        let b = bs[0];
        let rest = escaped(bs.skip(1));
        law_query_escape_decodes_back(bs.skip(1));
        let e = escape_byte(b);
        let all = e + rest;
        assert(escaped(bs) == all);
        if unreserved(b) {
            assert(all[0] == b as char);
            assert((b as char) != '%');
            assert(all.skip(1) =~= rest);
            assert(((b as char) as u8) == b);
            assert(unescaped(all) =~= seq![b] + bs.skip(1));
        } else {
            let hi = (b / 16) as nat;
            let lo = (b % 16) as nat;
            lemma_hex_round_trip(hi);
            lemma_hex_round_trip(lo);
            assert(all[0] == '%' && all[1] == hex_char(hi, true) && all[2] == hex_char(lo, true));
            assert(all.skip(3) =~= rest);
            assert(hi * 16 + lo == b);
            assert(unescaped(all) =~= seq![b] + bs.skip(1));
        }
        assert(seq![b] + bs.skip(1) =~= bs);
    }
}

/// The UTF-8 bytes of a string.
pub open spec fn utf8_of(s: &str) -> Seq<u8> {
    s.spec_bytes()
}

/// The market screen's URL for a coin, a window and a search term.
pub open spec fn market_link(coin: Seq<char>, range: Range, q: Seq<u8>, q_empty: bool) -> Seq<char> {
    let base = seq!['/', 'm', 'a', 'r', 'k', 'e', 't', '?', 'c', 'o', 'i', 'n', '=']
        + escaped_text_of(coin) + seq!['&', 'r', 'a', 'n', 'g', 'e', '='] + range_tag(range);
    if q_empty {
        base
    } else {
        base + seq!['&', 'q', '='] + escaped(q)
    }
}

/// The escaping of a string given by its characters.
pub open spec fn escaped_text_of(s: Seq<char>) -> Seq<char> {
    escaped(vstd::utf8::encode_utf8(s))
}

/// The market screen's URL that keeps the state the user built: the coin in
/// focus, the chart window and the search term (left out when empty). Every
/// free-text part is percent-encoded.
pub fn market_url(coin: &str, range: Range, query: &str) -> (r: String)
    ensures
        r@ == market_link(coin@, range, utf8_of(query), query@.len() == 0),
{
    let mut url = String::new();
    proof {
        reveal_strlit("/market?coin=");
        reveal_strlit("&range=");
        reveal_strlit("&q=");
    }
    push_str(&mut url, "/market?coin=");
    let c = query_escape(coin);
    push_str(&mut url, c.as_str());
    push_str(&mut url, "&range=");
    push_str(&mut url, range.tag());
    proof {
        assert(utf8_of(coin) == vstd::utf8::encode_utf8(coin@));
        assert(url@ =~= seq!['/', 'm', 'a', 'r', 'k', 'e', 't', '?', 'c', 'o', 'i', 'n', '=']
            + escaped_text_of(coin@) + seq!['&', 'r', 'a', 'n', 'g', 'e', '='] + range_tag(range));
    }
    let ghost base = url@;
    if !query.is_empty() {
        push_str(&mut url, "&q=");
        let q = query_escape(query);
        push_str(&mut url, q.as_str());
        proof {
            assert("&q="@ =~= seq!['&', 'q', '=']);
            assert(url@ =~= base + seq!['&', 'q', '='] + escaped(utf8_of(query)));
        }
    }
    proof {
        lemma_utf8_empty(query@);
        assert(utf8_of(query) == vstd::utf8::encode_utf8(query@));
        if query@.len() == 0 {
            assert(url@ == market_link(coin@, range, utf8_of(query), true));
        } else {
            assert(url@ =~= market_link(coin@, range, utf8_of(query), false));
        }
    }
    url
}

/// The search term as the market screen uses it: trimmed, lower case, and
/// at most 32 characters (the field is free, the scan over it is not).
pub open spec fn needle_of(raw: Seq<char>) -> Seq<char> {
    let l = lowercase(trim(raw));
    if l.len() <= 32 {
        l
    } else {
        l.take(32)
    }
}

/// Longest search term, in characters.
pub const MAX_NEEDLE_CHARS: usize = 32;

/// The normalised search term; an absent one is empty.
pub fn search_needle(raw: Option<&str>) -> (r: String)
    ensures
        r@ == needle_of(
            match raw {
                Some(s) => s@,
                None => Seq::empty(),
            },
        ),
{
    let text: &str = match raw {
        Some(s) => s,
        None => {
            proof {
                reveal_strlit("");
            }
            ""
        },
    };
    let cs = chars_of(text);
    let (from, to) = trim_bounds(&cs);
    let trimmed = string_of(&cs, from, to);
    let lower = to_lowercase(trimmed.as_str());
    let ls = chars_of(lower.as_str());
    let n = if ls.len() <= MAX_NEEDLE_CHARS { ls.len() } else { MAX_NEEDLE_CHARS };
    let out = string_of(&ls, 0, n);
    proof {
        assert(ls@.subrange(0, n as int) =~= (if ls@.len() <= 32 { ls@ } else { ls@.take(32) }));
    }
    out
}

/// A text field of the statement export: in double quotes, with inner
/// quotes doubled (RFC 4180).
pub open spec fn csv_quoted(s: Seq<char>) -> Seq<char> {
    seq!['"'] + doubled_quotes(s) + seq!['"']
}

/// `s` with every `"` written twice.
pub open spec fn doubled_quotes(s: Seq<char>) -> Seq<char>
    decreases s.len(),
{
    if s.len() == 0 {
        Seq::empty()
    } else {
        let rest = doubled_quotes(s.drop_last());
        if s.last() == '"' {
            rest + seq!['"', '"']
        } else {
            rest.push(s.last())
        }
    }
}

/// A CSV text field: quotes around, inner quotes doubled.
pub fn csv_field(value: &str) -> (r: String)
    ensures
        r@ == csv_quoted(value@),
{
    let cs = chars_of(value);
    let mut out = String::new();
    push_char(&mut out, '"');
    let mut i: usize = 0;
    while i < cs.len()
        invariant
            i <= cs@.len(),
            out@ == seq!['"'] + doubled_quotes(cs@.take(i as int)),
        decreases cs@.len() - i,
    {
        let c = cs[i];
        if c == '"' {
            push_char(&mut out, '"');
            push_char(&mut out, '"');
        } else {
            push_char(&mut out, c);
        }
        proof {
            let t = cs@.take(i + 1);
            assert(t.drop_last() =~= cs@.take(i as int));
            assert(t.last() == c);
        }
        i = i + 1;
    }
    push_char(&mut out, '"');
    proof {
        assert(cs@.take(cs@.len() as int) =~= cs@);
    }
    out
}

proof fn lemma_utf8_empty(s: Seq<char>)
    ensures
        (vstd::utf8::encode_utf8(s).len() == 0) == (s.len() == 0),
{
    if s.len() > 0 {
        let first = vstd::utf8::encode_scalar(s[0] as u32);
        assert(first.len() >= 1);
        assert(vstd::utf8::encode_utf8(s) == first + vstd::utf8::encode_utf8(s.drop_first()));
    }
}

/// A candidate of `If-None-Match` with its weak markers (`W/`, repeated)
/// removed from the front.
pub open spec fn weak_stripped(c: Seq<char>) -> Seq<char>
    decreases c.len(),
{
    if c.len() >= 2 && c[0] == 'W' && c[1] == '/' {
        weak_stripped(c.skip(2))
    } else {
        c
    }
}

/// One candidate, trimmed and without its weak markers, names this tag or
/// any tag (`*`).
pub open spec fn candidate_hits(c: Seq<char>, tag: Seq<char>) -> bool {
    let v = weak_stripped(trim(c));
    v == tag || v == seq!['*']
}

/// Some comma-separated candidate of the header hits the tag.
pub open spec fn list_hits(h: Seq<char>, tag: Seq<char>) -> bool
    decreases h.len(),
{
    let (piece, rest) = crate::i18n::split_first(h, ',');
    candidate_hits(piece, tag) || match rest {
        Some(r) => if r.len() < h.len() {
            list_hits(r, tag)
        } else {
            false
        },
        None => false,
    }
}

/// Whether `cs[from..to]` equals `other`.
fn range_eq(cs: &Vec<char>, from: usize, to: usize, other: &Vec<char>) -> (r: bool)
    requires
        from <= to <= cs.len(),
    ensures
        r == (cs@.subrange(from as int, to as int) == other@),
{
    if to - from != other.len() {
        return false;
    }
    let mut i: usize = 0;
    while i < other.len()
        invariant
            from <= to <= cs.len(),
            to - from == other@.len(),
            i <= other@.len(),
            forall|j: int| 0 <= j < i ==> cs@[from + j] == other@[j],
        decreases other@.len() - i,
    {
        if cs[from + i] != other[i] {
            proof {
                assert(cs@.subrange(from as int, to as int)[i as int] == cs@[from + i]);
            }
            return false;
        }
        i = i + 1;
    }
    proof {
        assert(cs@.subrange(from as int, to as int) =~= other@);
    }
    true
}

/// Whether one candidate `cs[from..to]` hits the tag.
fn candidate_in_range(cs: &Vec<char>, from: usize, to: usize, tag: &Vec<char>) -> (r: bool)
    requires
        from <= to <= cs.len(),
    ensures
        r == candidate_hits(cs@.subrange(from as int, to as int), tag@),
{
    let a = crate::text::skip_leading(cs, from, to);
    let b = crate::text::skip_trailing(cs, a, to);
    let ghost t = cs@.subrange(from as int, to as int);
    proof {
        assert(trim(t) == cs@.subrange(a as int, b as int));
    }
    let mut k = a;
    while b - k >= 2 && cs[k] == 'W' && cs[k + 1] == '/'
        invariant
            a <= k <= b <= cs.len(),
            weak_stripped(cs@.subrange(k as int, b as int)) == weak_stripped(cs@.subrange(
                a as int,
                b as int,
            )),
        decreases b - k,
    {
        proof {
            let c = cs@.subrange(k as int, b as int);
            assert(c[0] == cs@[k as int] && c[1] == cs@[k + 1]);
            assert(c.skip(2) =~= cs@.subrange(k + 2, b as int));
        }
        k = k + 2;
    }
    proof {
        let c = cs@.subrange(k as int, b as int);
        if c.len() >= 2 {
            assert(c[0] == cs@[k as int] && c[1] == cs@[k + 1]);
        }
    }
    let mut star: Vec<char> = Vec::new();
    star.push('*');
    proof {
        assert(star@ =~= seq!['*']);
    }
    range_eq(cs, k, b, tag) || range_eq(cs, k, b, &star)
}

/// Whether some candidate of the list `cs[from..to]` hits the tag.
fn list_in_range(cs: &Vec<char>, from: usize, to: usize, tag: &Vec<char>) -> (r: bool)
    requires
        from <= to <= cs.len(),
    ensures
        r == list_hits(cs@.subrange(from as int, to as int), tag@),
    decreases to - from,
{
    let ghost h = cs@.subrange(from as int, to as int);
    let comma = crate::i18n::find_char(cs, from, to, ',');
    proof {
        assert forall|i: int| 0 <= i < comma - from implies h[i] != ',' by {
            assert(h[i] == cs@[from + i]);
        }
        crate::i18n::lemma_split_first_at(h, ',', comma - from);
        assert(h.subrange(0, comma - from) =~= cs@.subrange(from as int, comma as int));
        if comma < to {
            assert(h.subrange(comma - from + 1, h.len() as int) =~= cs@.subrange(comma + 1, to as int));
        }
    }
    if candidate_in_range(cs, from, comma, tag) {
        true
    } else if comma < to {
        list_in_range(cs, comma + 1, to, tag)
    } else {
        false
    }
}

/// The browser already holds this version of a static file: a candidate of
/// its `If-None-Match` list, trimmed and without weak markers, is the tag or
/// `*`.
pub fn has_tag(if_none_match: Option<&str>, tag: &str) -> (r: bool)
    ensures
        r == match if_none_match {
            Some(h) => list_hits(h@, tag@),
            None => false,
        },
{
    match if_none_match {
        None => false,
        Some(h) => {
            let cs = chars_of(h);
            let t = chars_of(tag);
            proof {
                assert(cs@.subrange(0, cs@.len() as int) =~= cs@);
            }
            list_in_range(&cs, 0, cs.len(), &t)
        },
    }
}

/// Lower-case hexadecimal of a byte string, two digits per byte.
pub open spec fn hex_lower(bs: Seq<u8>) -> Seq<char>
    decreases bs.len(),
{
    if bs.len() == 0 {
        Seq::empty()
    } else {
        hex_lower(bs.drop_last()) + seq![
            hex_char((bs.last() / 16) as nat, false),
            hex_char((bs.last() % 16) as nat, false),
        ]
    }
}

/// `bytes[..n]` in lower-case hex.
pub fn hex_prefix(bytes: &Vec<u8>, n: usize) -> (r: String)
    requires
        n <= bytes@.len(),
    ensures
        r@ == hex_lower(bytes@.take(n as int)),
        r@.len() == 2 * n,
{
    let mut out = String::new();
    let mut i: usize = 0;
    while i < n
        invariant
            i <= n <= bytes@.len(),
            out@ == hex_lower(bytes@.take(i as int)),
            out@.len() == 2 * i,
        decreases n - i,
    {
        let b = bytes[i];
        push_char(&mut out, hex_digit(b / 16, false));
        push_char(&mut out, hex_digit(b % 16, false));
        proof {
            let t = bytes@.take(i + 1);
            assert(t.drop_last() =~= bytes@.take(i as int));
            assert(t.last() == b);
        }
        i = i + 1;
    }
    out
}

/// The `ETag` of a static file: the first half of its SHA-256 in hex,
/// between double quotes. It changes when the file changes.
pub fn content_tag(body: &str) -> (r: String)
    ensures
        r@ == seq!['"'] + hex_lower(crate::session::sha256_of(utf8_of(body)).take(16)) + seq!['"'],
        r@.len() == 34,
{
    let digest = crate::session::sha256(body.as_bytes());
    let mut tag = String::new();
    push_char(&mut tag, '"');
    let hex = hex_prefix(&digest, 16);
    push_str(&mut tag, hex.as_str());
    push_char(&mut tag, '"');
    tag
}

/// A request id accepted from outside: 1 to 64 bytes of ASCII letters,
/// digits and `-`, so a hostile header cannot put garbage into the logs.
pub open spec fn request_id_ok(v: Seq<char>) -> bool {
    &&& 1 <= v.len() <= 64
    &&& forall|i: int|
        0 <= i < v.len() ==> ('A' <= #[trigger] v[i] && v[i] <= 'Z') || ('a' <= v[i] && v[i] <= 'z')
            || ('0' <= v[i] && v[i] <= '9') || v[i] == '-'
}

/// Whether an incoming `x-request-id` is kept.
pub fn accepted_request_id(value: &str) -> (r: bool)
    ensures
        r == request_id_ok(value@),
{
    let cs = chars_of(value);
    if cs.len() == 0 || cs.len() > 64 {
        return false;
    }
    let mut i: usize = 0;
    while i < cs.len()
        invariant
            i <= cs@.len(),
            cs@ == value@,
            forall|j: int|
                0 <= j < i ==> ('A' <= #[trigger] cs@[j] && cs@[j] <= 'Z') || ('a' <= cs@[j] && cs@[j]
                    <= 'z') || ('0' <= cs@[j] && cs@[j] <= '9') || cs@[j] == '-',
        decreases cs@.len() - i,
    {
        let c = cs[i];
        if !(('A' <= c && c <= 'Z') || ('a' <= c && c <= 'z') || ('0' <= c && c <= '9') || c == '-') {
            return false;
        }
        i = i + 1;
    }
    true
}

/// A fresh request id: 8 bytes in lower-case hex (16 characters).
pub open spec fn is_fresh_request_id(id: Seq<char>) -> bool {
    &&& id.len() == 16
    &&& exists|bytes: Seq<u8>| bytes.len() == 8 && id == hex_lower(bytes)
}

/// The request id of a request whose own id was refused or absent: 8
/// random bytes in lower-case hex; `None` when the operating system gives
/// no randomness.
pub fn new_request_id() -> (r: Option<String>)
    ensures
        r matches Some(id) ==> is_fresh_request_id(id@),
{
    let bytes = match crate::session::random_bytes(8) {
        Some(b) => b,
        None => return None,
    };
    let r = hex_prefix(&bytes, 8);
    proof {
        assert(bytes@.take(8) =~= bytes@);
    }
    Some(r)
}

/// The request id to use: the incoming one when it is acceptable, else a
/// fresh one (`None` only when a fresh one is needed and the operating
/// system gives no randomness).
pub fn request_id(incoming: Option<&str>) -> (r: Option<String>)
    ensures
        match incoming {
            Some(v) => request_id_ok(v@) ==> (r matches Some(id) && id@ == v@),
            None => true,
        },
        !(incoming matches Some(v) && request_id_ok(v@)) ==> (r matches Some(id)
            ==> is_fresh_request_id(id@)),
        r matches Some(id) ==> request_id_ok(id@),
{
    if let Some(v) = incoming {
        if accepted_request_id(v) {
            return Some(v.to_string());
        }
    }
    let r = new_request_id();
    proof {
        if r is Some {
            let id = r->0;
            let bytes = choose|bytes: Seq<u8>| bytes.len() == 8 && id@ == hex_lower(bytes);
            lemma_hex_lower_ok(bytes);
        }
    }
    r
}

proof fn lemma_hex_lower_ok(bs: Seq<u8>)
    ensures
        forall|i: int|
            0 <= i < hex_lower(bs).len() ==> ('a' <= #[trigger] hex_lower(bs)[i] && hex_lower(bs)[i]
                <= 'z') || ('0' <= hex_lower(bs)[i] && hex_lower(bs)[i] <= '9'),
        hex_lower(bs).len() == 2 * bs.len(),
    decreases bs.len(),
{
    if bs.len() > 0 {
        lemma_hex_lower_ok(bs.drop_last());
        let h = hex_lower(bs);
        let p = hex_lower(bs.drop_last());
        let hi = (bs.last() / 16) as nat;
        let lo = (bs.last() % 16) as nat;
        assert(hi < 16 && lo < 16);
        assert forall|i: int| 0 <= i < h.len() implies ('a' <= #[trigger] h[i] && h[i] <= 'z') || (
        '0' <= h[i] && h[i] <= '9') by {
            if i < p.len() {
                assert(h[i] == p[i]);
            } else if i == p.len() {
                assert(h[i] == hex_char(hi, false));
            } else {
                assert(h[i] == hex_char(lo, false));
            }
        }
    }
}

/// The htmx signal of a partial request (`HX-Request: true`), except a
/// history restore, which wants the whole page to rebuild from.
pub open spec fn partial(hx_request: Option<Seq<char>>, history_restore: bool) -> bool {
    hx_request == Some(seq!['t', 'r', 'u', 'e']) && !history_restore
}

/// `HX-Request` is `true`.
pub fn is_htmx_request(hx_request: Option<&str>) -> (r: bool)
    ensures
        r == (match hx_request {
            Some(v) => v@ == seq!['t', 'r', 'u', 'e'],
            None => false,
        }),
{
    proof {
        reveal_strlit("true");
        assert("true"@ =~= seq!['t', 'r', 'u', 'e']);
    }
    match hx_request {
        Some(v) => crate::text::str_eq(v, "true"),
        None => false,
    }
}

/// The response should be the partial fragment rather than the full page.
pub fn is_partial_request(hx_request: Option<&str>, history_restore: bool) -> (r: bool)
    ensures
        r == partial(
            match hx_request {
                Some(v) => Some(v@),
                None => None,
            },
            history_restore,
        ),
{
    is_htmx_request(hx_request) && !history_restore
}

/// How a page that needs a session sends an anonymous visitor to the login.
#[derive(Clone, Copy, Debug, PartialEq, Eq, Structural)]
pub enum LoginRedirect {
    /// `401` with `HX-Redirect: /login`: htmx swaps the whole page instead
    /// of embedding the login inside the fragment.
    HxRedirect,
    /// A plain `303` redirect to `/login`.
    SeeOther,
}

/// The redirect for an unauthenticated page request.
pub fn unauthenticated_redirect(hx_request: Option<&str>) -> (r: LoginRedirect)
    ensures
        (r == LoginRedirect::HxRedirect) == (match hx_request {
            Some(v) => v@ == seq!['t', 'r', 'u', 'e'],
            None => false,
        }),
{
    if is_htmx_request(hx_request) {
        LoginRedirect::HxRedirect
    } else {
        LoginRedirect::SeeOther
    }
}

/// The content security policy of every response.
pub const CONTENT_SECURITY_POLICY: &'static str = "default-src 'self'; script-src 'self'; style-src 'self'; img-src 'self' data:; connect-src 'self'; frame-ancestors 'none'; form-action 'self'; base-uri 'self'; object-src 'none'";

/// HSTS, sent only when cookies are `Secure` (behind HTTPS).
pub const STRICT_TRANSPORT: &'static str = "max-age=63072000; includeSubDomains";

/// Whether the path is one of the static files.
pub open spec fn is_static_path(path: Seq<char>) -> bool {
    path.len() >= 8 && path.take(8) == seq!['/', 's', 't', 'a', 't', 'i', 'c', '/']
}

/// The security headers of a response to `path`, in order.
pub open spec fn security_header_list(path: Seq<char>, cookie_secure: bool) -> Seq<(Seq<char>, Seq<char>)> {
    let always = seq![
        ("content-security-policy"@, CONTENT_SECURITY_POLICY@),
        ("x-content-type-options"@, "nosniff"@),
        ("x-frame-options"@, "DENY"@),
        ("referrer-policy"@, "no-referrer"@),
    ];
    let cached = if is_static_path(path) {
        always
    } else {
        always.push(("cache-control"@, "no-store"@))
    };
    if cookie_secure {
        cached.push(("strict-transport-security"@, STRICT_TRANSPORT@))
    } else {
        cached
    }
}

/// The security headers of a response, as `(name, value)` pairs: the CSP,
/// `nosniff`, `DENY` framing and no referrer always; `no-store` caching
/// except for the static files; HSTS when cookies are secure.
pub fn security_headers(path: &str, cookie_secure: bool) -> (r: Vec<(&'static str, &'static str)>)
    ensures
        r@.map_values(|h: (&'static str, &'static str)| (h.0@, h.1@)) == security_header_list(
            path@,
            cookie_secure,
        ),
{
    proof {
        reveal_strlit("/static/");
    }
    let mut headers: Vec<(&'static str, &'static str)> = Vec::new();
    headers.push(("content-security-policy", CONTENT_SECURITY_POLICY));
    headers.push(("x-content-type-options", "nosniff"));
    headers.push(("x-frame-options", "DENY"));
    headers.push(("referrer-policy", "no-referrer"));
    let cs = chars_of(path);
    let prefix = chars_of("/static/");
    let is_static = cs.len() >= 8 && range_eq(&cs, 0, 8, &prefix);
    proof {
        assert(prefix@ =~= seq!['/', 's', 't', 'a', 't', 'i', 'c', '/']);
        if cs.len() >= 8 {
            assert(cs@.subrange(0, 8) =~= cs@.take(8));
        }
    }
    if !is_static {
        headers.push(("cache-control", "no-store"));
    }
    if cookie_secure {
        headers.push(("strict-transport-security", STRICT_TRANSPORT));
    }
    proof {
        assert(headers@.map_values(|h: (&'static str, &'static str)| (h.0@, h.1@)) =~= security_header_list(
            path@,
            cookie_secure,
        ));
    }
    headers
}

} // verus!
