use snakeway::traffic::protocol_mode::{ProtocolFacts, ProtocolMode};

#[test]
fn should_require_tls_upstream_for_end_to_end_h2() {
    let mode = ProtocolMode::resolve(ProtocolFacts { downstream_http2: true, upstream_tls: true, is_upgrade: false });
    assert_eq!(mode, ProtocolMode::Http2EndToEnd);
}

#[test]
fn should_resolve_to_plaintext_http1_upstream_for_http2_client() {
    let mode = ProtocolMode::resolve(ProtocolFacts { downstream_http2: true, upstream_tls: false, is_upgrade: false });
    assert_eq!(mode, ProtocolMode::Http1);
}

#[test]
fn should_force_http1_over_end_to_end_h2_when_upgrade() {
    let mode = ProtocolMode::resolve(ProtocolFacts { downstream_http2: true, upstream_tls: true, is_upgrade: true });
    assert_eq!(mode, ProtocolMode::Http1);
}

#[test]
fn should_resolve_all_states() {
    let cases = [
        (false, false, false, ProtocolMode::Http1),
        (false, false, true, ProtocolMode::Http1),
        (false, true, false, ProtocolMode::Http1),
        (false, true, true, ProtocolMode::Http2EndToEnd),
        (true, false, false, ProtocolMode::Http1),
        (true, false, true, ProtocolMode::Http1),
        (true, true, false, ProtocolMode::Http1),
        (true, true, true, ProtocolMode::Http1),
    ];
    for (is_upgrade, downstream_http2, upstream_tls, expected) in cases {
        let mode = ProtocolMode::resolve(ProtocolFacts { downstream_http2, upstream_tls, is_upgrade });
        assert_eq!(mode, expected, "is_upgrade={is_upgrade} downstream_http2={downstream_http2} upstream_tls={upstream_tls}");
    }
}
