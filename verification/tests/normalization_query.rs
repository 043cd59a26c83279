use snakeway::normalization::query::{normalize_query, percent_decode_unreserved, sort_query_pairs};
use snakeway::normalization::types::{NormalizationOutcome, RejectReason, RewriteReason};

fn pairs(expected: &[(&str, &str)]) -> Vec<(String, String)> {
    expected.iter().map(|(k, v)| (k.to_string(), v.to_string())).collect()
}

fn assert_accept_query(raw: &str, expected: &[(&str, &str)]) {
    match normalize_query(raw) {
        NormalizationOutcome::Accept(q) => {
            let expected = pairs(expected);
            assert_eq!(q.pairs(), &expected);
        }
        other => panic!("Expected Accept, got {:?}", other),
    }
}

fn assert_rewrite_query(raw: &str, expected: &[(&str, &str)], reason: RewriteReason) {
    match normalize_query(raw) {
        NormalizationOutcome::Rewrite { value: q, reason: r } => {
            let expected = pairs(expected);
            assert_eq!(q.pairs(), expected);
            assert_eq!(r, reason);
        }
        other => panic!("Expected Rewrite, got {:?}", other),
    }
}

fn assert_reject_query(raw: &str, reason: RejectReason) {
    match normalize_query(raw) {
        NormalizationOutcome::Reject { reason: r } => {
            assert_eq!(r, reason);
        }
        other => panic!("Expected Reject, got {:?}", other),
    }
}

#[test]
fn accept_empty_query() {
    assert_accept_query("", &[]);
}

#[test]
fn accept_single_pair() {
    assert_accept_query("a=1", &[("a", "1")]);
}

#[test]
fn accept_multiple_pairs() {
    assert_accept_query("a=1&b=2", &[("a", "1"), ("b", "2")]);
}

#[test]
fn accept_key_without_value() {
    assert_accept_query("a", &[("a", "")]);
}

#[test]
fn accept_duplicate_keys_preserve_order() {
    assert_accept_query("a=1&a=2", &[("a", "1"), ("a", "2")]);
}

#[test]
fn rewrite_query_ordering() {
    assert_rewrite_query("b=2&a=1", &[("a", "1"), ("b", "2")], RewriteReason::QueryCanonicalization);
}

#[test]
fn rewrite_percent_decode_unreserved() {
    assert_rewrite_query("q=foo%7Ebar", &[("q", "foo~bar")], RewriteReason::PercentDecodeUnreserved);
}

#[test]
fn rewrite_uppercase_normalization_reserved() {
    assert_rewrite_query("q=foo%2fbar", &[("q", "foo%2Fbar")], RewriteReason::PercentDecodeUnreserved);
}

#[test]
fn rewrite_uppercase_normalization_non_ascii() {
    assert_rewrite_query("q=%c3%a9", &[("q", "%C3%A9")], RewriteReason::PercentDecodeUnreserved);
}

#[test]
fn rewrite_decode_all_unreserved_chars() {
    assert_rewrite_query(
        "q=%41%5A%61%7A%30%39%2D%2E%5F%7E",
        &[("q", "AZaz09-._~")],
        RewriteReason::PercentDecodeUnreserved,
    );
}

#[test]
fn reject_invalid_percent_encoding() {
    assert_reject_query("a=%ZZ", RejectReason::InvalidPercentEncoding);
}

#[test]
fn reject_truncated_percent_encoding() {
    assert_reject_query("a=%", RejectReason::InvalidPercentEncoding);
}

#[test]
fn reject_nul_in_query() {
    assert_reject_query("a=1\0", RejectReason::InvalidQueryEncoding);
}

#[test]
fn raw_query_is_kept_as_received() {
    match normalize_query("b=2&a=%7e") {
        NormalizationOutcome::Rewrite { value, .. } => assert_eq!(value.raw(), "b=2&a=%7e"),
        other => panic!("Expected Rewrite, got {:?}", other),
    }
}

#[test]
fn percent_decode_keeps_plain_text() {
    assert_eq!(percent_decode_unreserved("abc").unwrap(), "abc");
    assert_eq!(percent_decode_unreserved("%7e%2f").unwrap(), "~%2F");
    assert!(percent_decode_unreserved("%G1").is_err());
}

#[test]
fn sorting_pairs_orders_by_key_then_value() {
    let sorted = sort_query_pairs(&pairs(&[("b", "1"), ("a", "2"), ("a", "1")]));
    assert_eq!(sorted, pairs(&[("a", "1"), ("a", "2"), ("b", "1")]));
}

#[test]
fn a_triplet_needs_two_hex_digits() {
    assert!(percent_decode_unreserved("%+1").is_err());
    assert!(percent_decode_unreserved("%1+").is_err());
    assert!(percent_decode_unreserved("%a").is_err());
    assert!(percent_decode_unreserved("%a\u{e9}").is_err());
    assert!(percent_decode_unreserved("%\u{e9}1").is_err());
    assert_reject_query("q=%+1", RejectReason::InvalidPercentEncoding);
    assert_reject_query("q=%a\u{e9}", RejectReason::InvalidPercentEncoding);
}

#[test]
fn text_outside_triplets_is_kept() {
    assert_eq!(percent_decode_unreserved("caf\u{e9}").unwrap(), "caf\u{e9}");
    assert_eq!(percent_decode_unreserved("\u{e9}%41\u{1f600}").unwrap(), "\u{e9}A\u{1f600}");
    assert_accept_query("name=caf\u{e9}", &[("name", "caf\u{e9}")]);
}
