//! The negotiated wire protocol between the proxy and the upstream.
use vstd::prelude::*;

verus! {

/// The wire protocol to the upstream.
#[derive(Debug, Clone, Copy, PartialEq, Eq, Structural)]
pub enum ProtocolMode {
    /// HTTP/1.1 to the upstream (an HTTP/1.x client, or an HTTP/2 client
    /// proxied to a plaintext upstream).
    Http1,
    /// End-to-end HTTP/2: an HTTP/2 client proxied to a TLS upstream.
    Http2EndToEnd,
}

/// The facts that decide the protocol.
#[derive(Debug, Clone, Copy, PartialEq, Eq, Structural)]
pub struct ProtocolFacts {
    /// The downstream request is HTTP/2.
    pub downstream_http2: bool,
    /// The selected upstream uses TLS.
    pub upstream_tls: bool,
    /// The request is a protocol upgrade (e.g. a WebSocket handshake).
    pub is_upgrade: bool,
}

impl ProtocolMode {
    /// An upgrade forces HTTP/1.1; otherwise end-to-end HTTP/2 needs both
    /// an HTTP/2 client and a TLS upstream; everything else is HTTP/1.1.
    pub fn resolve(inputs: ProtocolFacts) -> (m: Self)
        ensures
            m == (if !inputs.is_upgrade && inputs.downstream_http2 && inputs.upstream_tls {
                ProtocolMode::Http2EndToEnd
            } else {
                ProtocolMode::Http1
            }),
    {
        if inputs.is_upgrade {
            ProtocolMode::Http1
        } else if inputs.downstream_http2 && inputs.upstream_tls {
            ProtocolMode::Http2EndToEnd
        } else {
            ProtocolMode::Http1
        }
    }
}

} // verus!
