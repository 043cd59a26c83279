use snakeway::normalization::headers::{is_http2_forbidden_header, normalize_http2_headers};
use snakeway::normalization::types::{NormalizationOutcome, RejectReason, RewriteReason};

fn raw(input: &[(&str, &str)]) -> Vec<(String, Vec<u8>)> {
    input.iter().map(|(k, v)| (k.to_string(), v.as_bytes().to_vec())).collect()
}

fn assert_accept_http2_headers(input: &[(&str, &str)], expected: &[(&str, &str)]) {
    match normalize_http2_headers(&raw(input)) {
        NormalizationOutcome::Accept(h) => {
            assert_eq!(h.len(), expected.len());
            for (k, v) in expected {
                assert_eq!(h.get(k).unwrap().as_str(), *v);
            }
        }
        other => panic!("Expected Accept, got {:?}", other),
    }
}

fn assert_rewrite_http2_headers(input: &[(&str, &str)], expected: &[(&str, &str)], reason: RewriteReason) {
    match normalize_http2_headers(&raw(input)) {
        NormalizationOutcome::Rewrite { value: h, reason: r } => {
            assert_eq!(h.len(), expected.len());
            for (k, v) in expected {
                assert_eq!(h.get(k).unwrap().as_str(), *v);
            }
            assert_eq!(r, reason);
        }
        other => panic!("Expected Rewrite, got {:?}", other),
    }
}

fn assert_reject_http2_headers(input: &[(&str, &str)], reason: RejectReason) {
    match normalize_http2_headers(&raw(input)) {
        NormalizationOutcome::Reject { reason: r } => assert_eq!(r, reason),
        other => panic!("Expected Reject, got {:?}", other),
    }
}

#[test]
fn accept_simple_http2_headers() {
    assert_accept_http2_headers(
        &[("host", "example.com"), ("user-agent", "snakeway")],
        &[("host", "example.com"), ("user-agent", "snakeway")],
    );
}

#[test]
fn accept_te_trailers_as_a_special_case() {
    assert_accept_http2_headers(&[("te", "trailers")], &[("te", "trailers")]);
}

#[test]
fn reject_forbidden_hop_by_hop_connection_header() {
    assert_reject_http2_headers(&[("connection", "keep-alive")], RejectReason::HopByHopHeader);
}

#[test]
fn reject_te_header_not_trailers() {
    assert_reject_http2_headers(&[("te", "gzip")], RejectReason::HopByHopHeader);
}

#[test]
fn reject_transfer_encoding_header() {
    assert_reject_http2_headers(&[("transfer-encoding", "chunked")], RejectReason::HopByHopHeader);
}

#[test]
fn rewrite_fold_duplicate_headers() {
    assert_rewrite_http2_headers(
        &[("x-test", "a"), ("x-test", "b")],
        &[("x-test", "a, b")],
        RewriteReason::HeaderCanonicalization,
    );
}

#[test]
fn rewrite_trim_whitespace() {
    assert_rewrite_http2_headers(
        &[("x-test", "  value  ")],
        &[("x-test", "value")],
        RewriteReason::HeaderCanonicalization,
    );
}

#[test]
fn reject_uppercase_header_name() {
    assert_reject_http2_headers(&[("X-Test", "a")], RejectReason::HeaderEncodingViolation);
}

#[test]
fn reject_non_ascii_header_value() {
    let headers = vec![("x-test".to_string(), vec![0xC3, 0xA9])];
    match normalize_http2_headers(&headers) {
        NormalizationOutcome::Reject { reason } => assert_eq!(reason, RejectReason::HeaderEncodingViolation),
        other => panic!("Expected Reject, got {:?}", other),
    }
}

#[test]
fn forbidden_header_names() {
    for name in ["connection", "keep-alive", "proxy-authenticate", "proxy-authorization", "transfer-encoding", "upgrade", "trailer"] {
        assert!(is_http2_forbidden_header(name));
    }
    assert!(!is_http2_forbidden_header("te"));
    assert!(!is_http2_forbidden_header("host"));
}

#[test]
fn folded_output_keeps_first_seen_order_and_one_entry_per_name() {
    match normalize_http2_headers(&raw(&[("b", "1"), ("a", "2"), ("b", "3")])) {
        NormalizationOutcome::Rewrite { value, .. } => {
            let list = value.as_list();
            assert_eq!(list.len(), 2);
            assert_eq!(list[0], ("b".to_string(), "1, 3".to_string()));
            assert_eq!(list[1], ("a".to_string(), "2".to_string()));
        }
        other => panic!("Expected Rewrite, got {:?}", other),
    }
}
