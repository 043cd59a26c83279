//! Upstream endpoints as the runtime holds them.
use vstd::prelude::*;
use crate::traffic::types::UpstreamId;
use crate::text::push_char;
use crate::text::concat;

verus! {

/// A TCP upstream. Its resolved address and CA certificate, which only
/// the network layer reads, are held beside it by the caller.
#[derive(Debug, Clone)]
pub struct UpstreamTcpRuntime {
    pub id: UpstreamId,
    pub host: String,
    pub port: u16,
    pub use_tls: bool,
    pub sni: String,
    pub weight: u32,
    pub verify: bool,
    /// Precomputed when the runtime snapshot is created.
    pub group_key: u64,
}

/// A Unix-socket upstream.
#[derive(Debug, Clone)]
pub struct UpstreamUnixRuntime {
    pub id: UpstreamId,
    pub path: String,
    pub use_tls: bool,
    pub sni: String,
    pub weight: u32,
}

/// An upstream endpoint.
#[derive(Debug, Clone)]
pub enum UpstreamRuntime {
    Tcp(UpstreamTcpRuntime),
    Unix(UpstreamUnixRuntime),
}

/// The decimal digit for `d < 10`.
pub open spec fn digit_char(d: int) -> char {
    (d + 48) as char
}

/// The decimal text of a number, without leading zeros.
pub open spec fn decimal_text(n: nat) -> Seq<char>
    decreases n,
{
    if n < 10 {
        seq![digit_char(n as int)]
    } else {
        decimal_text(n / 10) + seq![digit_char((n % 10) as int)]
    }
}

fn push_decimal(s: &mut String, n: u64)
    ensures
        final(s)@ == old(s)@ + decimal_text(n as nat),
    decreases n,
{
    if n >= 10 {
        push_decimal(s, n / 10);
    }
    let d: u8 = (n % 10) as u8;
    let c = (48u8 + d) as char;
    assert(c == digit_char((n % 10) as int));
    push_char(s, c);
    assert(final(s)@ =~= old(s)@ + decimal_text(n as nat));
}

/// The decimal text of a number.
pub fn decimal_string(n: u64) -> (s: String)
    ensures
        s@ == decimal_text(n as nat),
{
    let mut s = String::new();
    push_decimal(&mut s, n);
    assert(s@ =~= decimal_text(n as nat));
    s
}

/// The authority of an upstream: `host:port` over TCP; the SNI name over a
/// Unix socket, which has no host of its own.
pub open spec fn authority_spec(u: UpstreamRuntime) -> Seq<char> {
    match u {
        UpstreamRuntime::Tcp(t) => t.host@ + ":"@ + decimal_text(t.port as nat),
        UpstreamRuntime::Unix(x) => x.sni@,
    }
}

impl UpstreamRuntime {
    pub open spec fn id_spec(&self) -> UpstreamId {
        match self {
            UpstreamRuntime::Tcp(t) => t.id,
            UpstreamRuntime::Unix(u) => u.id,
        }
    }

    pub open spec fn weight_spec(&self) -> u32 {
        match self {
            UpstreamRuntime::Tcp(t) => t.weight,
            UpstreamRuntime::Unix(u) => u.weight,
        }
    }

    pub fn id(&self) -> (r: UpstreamId)
        ensures
            r == self.id_spec(),
    {
        match self {
            UpstreamRuntime::Tcp(t) => t.id,
            UpstreamRuntime::Unix(u) => u.id,
        }
    }

    pub fn weight(&self) -> (r: u32)
        ensures
            r == self.weight_spec(),
    {
        match self {
            UpstreamRuntime::Tcp(t) => t.weight,
            UpstreamRuntime::Unix(u) => u.weight,
        }
    }

    pub fn use_tls(&self) -> (r: bool)
        ensures
            r == (match self {
                UpstreamRuntime::Tcp(t) => t.use_tls,
                UpstreamRuntime::Unix(u) => u.use_tls,
            }),
    {
        match self {
            UpstreamRuntime::Tcp(t) => t.use_tls,
            UpstreamRuntime::Unix(u) => u.use_tls,
        }
    }

    pub fn authority(&self) -> (r: String)
        ensures
            r@ == authority_spec(*self),
    {
        match self {
            UpstreamRuntime::Tcp(t) => {
                let hp = concat(t.host.as_str(), ":");
                let port = decimal_string(t.port as u64);
                concat(hp.as_str(), port.as_str())
            },
            UpstreamRuntime::Unix(u) => u.sni.clone(),
        }
    }
}

} // verus!
