//! Building upstream endpoints from their configuration: the URL's host and
//! port, the TLS server name, which CA file applies, and the ids.
use vstd::prelude::*;
use std::hash::{Hash, Hasher};
use crate::text::{trim_spec, trim_str};
use crate::traffic::types::UpstreamId;
use crate::runtime::types::{UpstreamTcpRuntime, UpstreamUnixRuntime};
use crate::jwt::claims::opt_str_view;

verus! {

/// The TLS block of an upstream's configuration.
#[derive(Debug, Clone)]
pub struct UpstreamTlsConfig {
    pub sni: String,
    pub verify: bool,
    pub ca_file: Option<String>,
}

/// The TLS settings an upstream resolves to; `ca_file` is the CA file to
/// load, if any.
#[derive(Debug, Clone)]
pub struct UpstreamTlsPlan {
    pub sni: String,
    pub verify: bool,
    pub ca_file: Option<String>,
}

/// The address an upstream id is derived from.
#[derive(Debug, Clone, Hash)]
pub enum UpstreamAddr {
    Tcp { host: String, port: u16 },
    Unix { path: String },
}

/// Why an upstream URL is refused.
#[derive(Debug, Clone, PartialEq, Eq)]
pub enum UpstreamUrlError {
    /// The URL does not parse.
    InvalidUrl(String),
    /// The URL has no authority.
    MissingAuthority(String),
}

/// What `http::Uri` gives for a URL: `None` when it does not parse;
/// otherwise its authority's host and port, if it has an authority.
pub uninterp spec fn uri_host_port(url: Seq<char>) -> Option<Option<(Seq<char>, Option<u16>)>>;

/// `url.parse::<http::Uri>()`, then `authority()`, `host()` and
/// `port_u16()`.
#[verifier::external_body]
fn parse_uri_host_port(url: &str) -> (r: Option<Option<(String, Option<u16>)>>)
    ensures
        uri_host_port(url@) == (match r {
            None => None,
            Some(None) => Some(None),
            Some(Some((h, p))) => Some(Some((h@, p))),
        }),
{
    match url.parse::<http::Uri>() {
        Ok(uri) => Some(uri.authority().map(|a| (a.host().to_owned(), a.port_u16()))),
        Err(_) => None,
    }
}

/// The host and port of an upstream URL; the port defaults to 80.
pub fn parse_upstream_url(url: &str) -> (r: Result<(String, u16), UpstreamUrlError>)
    ensures
        match uri_host_port(url@) {
            None => r matches Err(UpstreamUrlError::InvalidUrl(u)) && u@ == url@,
            Some(None) => r matches Err(UpstreamUrlError::MissingAuthority(u)) && u@ == url@,
            Some(Some((h, p))) => r matches Ok((host, port)) && host@ == h && port == (match p {
                Some(n) => n,
                None => 80u16,
            }),
        },
{
    match parse_uri_host_port(url) {
        None => Err(UpstreamUrlError::InvalidUrl(url.to_owned())),
        Some(None) => Err(UpstreamUrlError::MissingAuthority(url.to_owned())),
        Some(Some((host, port))) => {
            let p = match port {
                Some(n) => n,
                None => 80,
            };
            Ok((host, p))
        },
    }
}

/// The TLS server name of a TCP upstream: none without a TLS block; the
/// configured name when it is not blank; none for an IP literal host;
/// otherwise the host.
pub fn tcp_upstream_sni(tls: Option<&UpstreamTlsConfig>, host: &str, host_is_ip: bool) -> (s: String)
    ensures
        s@ == (match tls {
            None => Seq::<char>::empty(),
            Some(t) => if trim_spec(t.sni@).len() > 0 {
                t.sni@
            } else if host_is_ip {
                Seq::<char>::empty()
            } else {
                host@
            },
        }),
{
    match tls {
        None => String::new(),
        Some(t) => {
            let trimmed = trim_str(t.sni.as_str());
            if !trimmed.as_str().is_empty() {
                t.sni.clone()
            } else if host_is_ip {
                String::new()
            } else {
                host.to_owned()
            }
        },
    }
}

/// The TLS server name of a Unix-socket upstream: the configured one, if any.
pub fn unix_upstream_sni(tls: Option<&UpstreamTlsConfig>) -> (s: String)
    ensures
        s@ == (match tls {
            None => Seq::<char>::empty(),
            Some(t) => t.sni@,
        }),
{
    match tls {
        None => String::new(),
        Some(t) => t.sni.clone(),
    }
}

/// Resolves an upstream's TLS settings: none without a TLS block. With
/// verification on, the upstream's own CA file applies before the global
/// one; with verification off no CA file is read.
pub fn resolve_upstream_tls(tls: Option<&UpstreamTlsConfig>, sni: String, global_ca_file: Option<&str>) -> (r: Option<UpstreamTlsPlan>)
    ensures
        match tls {
            None => r is None,
            Some(t) => r matches Some(p) && p.sni@ == sni@ && p.verify == t.verify
                && opt_str_view(p.ca_file) == (if !t.verify {
                    None
                } else {
                    match t.ca_file {
                        Some(f) => Some(f@),
                        None => match global_ca_file {
                            Some(g) => Some(g@),
                            None => None,
                        },
                    }
                }),
        },
{
    let t = match tls {
        Some(t) => t,
        None => return None,
    };
    let ca_file = if !t.verify {
        None
    } else {
        match &t.ca_file {
            Some(f) => Some(f.clone()),
            None => match global_ca_file {
                Some(g) => Some(g.to_owned()),
                None => None,
            },
        }
    };
    Some(UpstreamTlsPlan { sni, verify: t.verify, ca_file })
}

/// `ahash::RandomState::with_seeds(1, 2, 3, 4).hash_one(addr)`, truncated
/// to 32 bits. The hash depends on the machine (it uses AES instructions
/// where present), so nothing is stated of it.
#[verifier::external_body]
pub(crate) fn make_upstream_id(addr: &UpstreamAddr) -> (id: UpstreamId) {
    let hasher = ahash::RandomState::with_seeds(1, 2, 3, 4);
    UpstreamId(hasher.hash_one(addr) as u32)
}

/// `ahash::AHasher::default()` over the path: its keys are drawn once per
/// process, so nothing is stated of the result.
#[verifier::external_body]
pub(crate) fn calculate_group_key(path: &str) -> (k: u64) {
    let mut h = ahash::AHasher::default();
    std::path::Path::new(path).as_os_str().hash(&mut h);
    h.finish()
}


/// A TCP upstream's configuration.
#[derive(Debug, Clone)]
pub struct UpstreamTcpConfig {
    pub url: String,
    pub weight: u32,
    pub tls: Option<UpstreamTlsConfig>,
}

/// A Unix-socket upstream's configuration.
#[derive(Debug, Clone)]
pub struct UpstreamUnixConfig {
    pub sock: String,
    pub weight: u32,
    pub tls: Option<UpstreamTlsConfig>,
}

/// The TLS plan `resolve_upstream_tls` gives, by its views.
pub open spec fn tls_plan_spec(tls: Option<UpstreamTlsConfig>, sni: Seq<char>, global_ca_file: Option<Seq<char>>) -> Option<(Seq<char>, bool, Option<Seq<char>>)> {
    match tls {
        None => None,
        Some(t) => Some((sni, t.verify, if !t.verify {
            None
        } else {
            match t.ca_file {
                Some(f) => Some(f@),
                None => global_ca_file,
            }
        })),
    }
}

pub open spec fn plan_view(p: Option<UpstreamTlsPlan>) -> Option<(Seq<char>, bool, Option<Seq<char>>)> {
    match p {
        None => None,
        Some(q) => Some((q.sni@, q.verify, opt_str_view(q.ca_file))),
    }
}

fn opt_str(o: Option<&str>) -> (r: Option<String>)
    ensures
        opt_str_view(r) == (match o {
            Some(s) => Some(s@),
            None => None::<Seq<char>>,
        }),
{
    match o {
        Some(s) => Some(s.to_owned()),
        None => None,
    }
}

/// A Unix-socket upstream: its path and weight as configured, TLS when it
/// has a TLS block, with the configured server name; its id derives from
/// the socket path. The plan names the CA file to load.
pub fn make_upstream_runtime_for_unix(cfg: &UpstreamUnixConfig, global_ca_file: Option<&str>) -> (r: (UpstreamUnixRuntime, Option<UpstreamTlsPlan>))
    ensures
        r.0.path@ == cfg.sock@,
        r.0.weight == cfg.weight,
        r.0.use_tls == cfg.tls is Some,
        r.0.sni@ == (match cfg.tls {
            Some(t) => t.sni@,
            None => Seq::<char>::empty(),
        }),
        plan_view(r.1) == tls_plan_spec(cfg.tls, r.0.sni@, match global_ca_file {
            Some(g) => Some(g@),
            None => None,
        }),
{
    let addr = UpstreamAddr::Unix { path: cfg.sock.clone() };
    let id = make_upstream_id(&addr);
    let sni = unix_upstream_sni(cfg.tls.as_ref());
    let plan = resolve_upstream_tls(cfg.tls.as_ref(), sni.clone(), global_ca_file);
    let rt = UpstreamUnixRuntime {
        id,
        path: cfg.sock.clone(),
        use_tls: cfg.tls.is_some(),
        sni,
        weight: cfg.weight,
    };
    (rt, plan)
}

/// A TCP upstream from its configuration, its URL's host and port (see
/// `parse_upstream_url`) and whether the host is an IP literal: TLS when it
/// has a TLS block, the server name of `tcp_upstream_sni`, verification as
/// configured; its id derives from host and port, and its group key from
/// the CA file, when one applies.
pub fn make_upstream_runtime_from_tcp(
    cfg: &UpstreamTcpConfig,
    host: String,
    port: u16,
    host_is_ip: bool,
    global_ca_file: Option<&str>,
) -> (r: (UpstreamTcpRuntime, Option<UpstreamTlsPlan>))
    ensures
        r.0.host@ == host@,
        r.0.port == port,
        r.0.weight == cfg.weight,
        r.0.use_tls == cfg.tls is Some,
        r.0.verify == (match cfg.tls {
            Some(t) => t.verify,
            None => false,
        }),
        r.0.sni@ == (match cfg.tls {
            None => Seq::<char>::empty(),
            Some(t) => if trim_spec(t.sni@).len() > 0 {
                t.sni@
            } else if host_is_ip {
                Seq::<char>::empty()
            } else {
                host@
            },
        }),
        plan_view(r.1) == tls_plan_spec(cfg.tls, r.0.sni@, match global_ca_file {
            Some(g) => Some(g@),
            None => None,
        }),
        (r.1 matches Some(p) && p.ca_file is Some) || r.0.group_key == 0,
{
    let sni = tcp_upstream_sni(cfg.tls.as_ref(), host.as_str(), host_is_ip);
    let addr = UpstreamAddr::Tcp { host: host.clone(), port };
    let id = make_upstream_id(&addr);
    let plan = resolve_upstream_tls(cfg.tls.as_ref(), sni.clone(), global_ca_file);
    let group_key = match &plan {
        Some(p) => match &p.ca_file {
            Some(f) => calculate_group_key(f.as_str()),
            None => 0,
        },
        None => 0,
    };
    let verify = match &cfg.tls {
        Some(t) => t.verify,
        None => false,
    };
    let rt = UpstreamTcpRuntime {
        id,
        host,
        port,
        use_tls: cfg.tls.is_some(),
        sni,
        weight: cfg.weight,
        verify,
        group_key,
    };
    (rt, plan)
}

} // verus!
