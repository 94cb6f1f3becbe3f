use wallet::market::Range;
use wallet::web::{
    accepted_request_id, content_tag, csv_field, has_tag, hex_prefix, is_htmx_request,
    is_partial_request, market_url, new_request_id, query_escape, request_id, sanitized_next,
    search_needle, security_headers, unauthenticated_redirect, LoginRedirect,
};

#[test]
fn market_urls_percent_encode_free_text() {
    assert_eq!(market_url("bitcoin", Range::Week, ""), "/market?coin=bitcoin&range=7d");
    assert_eq!(
        market_url("bitcoin", Range::Day, "a&b=c d"),
        "/market?coin=bitcoin&range=24h&q=a%26b%3Dc%20d"
    );
    assert_eq!(query_escape("moeda-é_1.0~"), "moeda-%C3%A9_1.0~");
    assert_eq!(search_needle(Some("  BTC  ")), "btc");
    assert_eq!(search_needle(None), "");
    assert_eq!(search_needle(Some(&"x".repeat(100))).len(), 32);
}

#[test]
fn language_switch_only_follows_local_absolute_paths() {
    assert_eq!(sanitized_next(Some("/assets")), "/assets");
    assert_eq!(sanitized_next(Some("/login")), "/login");
    assert_eq!(sanitized_next(Some("//evil.example")), "/");
    assert_eq!(sanitized_next(Some("https://evil.example")), "/");
    assert_eq!(sanitized_next(Some("assets")), "/");
    assert_eq!(sanitized_next(None), "/");
}

#[test]
fn escaped_queries_keep_only_safe_characters() {
    let escaped = query_escape("a b&c=d#e?f/g+h%");
    assert_eq!(escaped, "a%20b%26c%3Dd%23e%3Ff%2Fg%2Bh%25");
    assert!(escaped
        .chars()
        .all(|c| c.is_ascii_alphanumeric() || "-._~%".contains(c)));
}

#[test]
fn csv_fields_are_quoted_with_inner_quotes_doubled() {
    assert_eq!(csv_field("bitcoin \"btc\""), "\"bitcoin \"\"btc\"\"\"");
    assert_eq!(csv_field("-"), "\"-\"");
    assert_eq!(csv_field(""), "\"\"");
}

#[test]
fn if_none_match_accepts_lists_weak_tags_and_star() {
    let tag = "\"abc\"";
    assert!(has_tag(Some("\"abc\""), tag));
    assert!(has_tag(Some("\"x\", W/\"abc\""), tag));
    assert!(has_tag(Some("  *  "), tag));
    assert!(!has_tag(Some("\"deadbeef\""), tag));
    assert!(!has_tag(Some("\"outra\", W/\"abd\""), tag));
    assert!(!has_tag(None, tag));
}

#[test]
fn content_tags_are_half_a_sha256_in_quotes() {
    let tag = content_tag("body { color: red }");
    assert_eq!(tag.len(), 34);
    assert!(tag.starts_with('"') && tag.ends_with('"'));
    assert_eq!(content_tag("body { color: red }"), tag);
    assert_ne!(content_tag("body { color: blue }"), tag);
    // SHA-256 of the empty text starts e3b0c442 98fc1c14 9afbf4c8 996fb924.
    assert_eq!(content_tag(""), "\"e3b0c44298fc1c149afbf4c8996fb924\"");
}

#[test]
fn hex_is_lower_case_two_digits_per_byte() {
    assert_eq!(hex_prefix(&vec![0x00, 0x0f, 0xab, 0xff], 4), "000fabff");
    assert_eq!(hex_prefix(&vec![0x12, 0x34], 1), "12");
}

#[test]
fn request_ids_from_outside_are_filtered() {
    assert!(accepted_request_id("abc-123"));
    assert!(!accepted_request_id(""));
    assert!(!accepted_request_id("has space"));
    assert!(!accepted_request_id(&"a".repeat(65)));
    assert!(accepted_request_id(&"a".repeat(64)));
    assert_eq!(request_id(Some("keep-me-1")).as_deref(), Some("keep-me-1"));
    let fresh = request_id(Some("no\nnewlines")).expect("randomness");
    assert_eq!(fresh.len(), 16);
    assert!(fresh.chars().all(|c| c.is_ascii_digit() || ('a'..='f').contains(&c)));
    assert!(accepted_request_id(&fresh));
    let absent = request_id(None).expect("randomness");
    assert_eq!(absent.len(), 16);
    assert_ne!(new_request_id(), new_request_id());
}

#[test]
fn htmx_marks_partial_requests_but_history_restore_wants_the_full_page() {
    assert!(!is_partial_request(None, false));
    assert!(is_partial_request(Some("true"), false));
    assert!(!is_partial_request(Some("true"), true));
    assert!(!is_htmx_request(Some("false")));
}

#[test]
fn unauthenticated_pages_redirect_the_whole_browser_for_classic_and_htmx_requests() {
    assert_eq!(unauthenticated_redirect(None), LoginRedirect::SeeOther);
    assert_eq!(unauthenticated_redirect(Some("true")), LoginRedirect::HxRedirect);
}

#[test]
fn every_response_carries_the_security_headers() {
    let page = security_headers("/assets", false);
    assert_eq!(page.len(), 5);
    assert_eq!(page[0].0, "content-security-policy");
    assert!(!page[0].1.contains("unsafe-inline"));
    assert!(page.contains(&("x-content-type-options", "nosniff")));
    assert!(page.contains(&("x-frame-options", "DENY")));
    assert!(page.contains(&("referrer-policy", "no-referrer")));
    assert!(page.contains(&("cache-control", "no-store")));

    let asset = security_headers("/static/app.css", true);
    assert!(!asset.iter().any(|(name, _)| *name == "cache-control"));
    assert_eq!(
        asset.last().unwrap(),
        &("strict-transport-security", "max-age=63072000; includeSubDomains")
    );
}
