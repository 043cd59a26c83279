//! Hydration: turning the facts of a received request into its canonical
//! form, or refusing it.
use vstd::prelude::*;
use crate::ctx::error::RequestRejectError;
use crate::ctx::sni::DownstreamSni;
use crate::normalization::headers::{
    NormalizedHeaders, HeaderView, first_value, normalize_http2_headers, normalize_http2_headers_spec,
    headers_outcome_view, raw_headers_view, is_visible_ascii, ascii_text, headers_view, value_text,
};
use crate::normalization::pairs::{pairs_new, pairs_held};
use crate::normalization::path::{normalize_path, normalize_path_spec, path_outcome_view, NormalizedPath};
use crate::normalization::query::{
    normalize_query, normalize_query_spec, pairs_view, query_outcome_view, CanonicalQuery,
};
use crate::normalization::types::NormalizationOutcome;
use crate::text::{
    ascii_lower_seq, to_ascii_lowercase, str_chars, str_eq, string_from_chars, string_from_range,
    push_char, concat,
};
use crate::jwt::claims::opt_str_view;

verus! {

/// The host of `s` parsed as a URI authority (`http::uri::Authority`),
/// or `None` when it does not parse.
pub uninterp spec fn authority_host(s: Seq<char>) -> Option<Seq<char>>;

/// `http::uri::Authority::from_str(s)`, then its `host()`: the host
/// subcomponent (an IPv6 literal keeps its brackets, a port is dropped).
#[verifier::external_body]
fn parse_authority_host(s: &str) -> (r: Option<String>)
    ensures
        opt_str_view(r) == authority_host(s@),
{
    match s.parse::<http::uri::Authority>() {
        Ok(a) => Some(a.host().to_owned()),
        Err(_) => None,
    }
}

/// What the request line and connection say about a request.
#[derive(Debug, Clone)]
pub struct RequestFacts {
    pub method: String,
    pub is_http2: bool,
    pub is_upgrade_req: bool,
    /// The scheme of the request URI, when it is in absolute form.
    pub uri_scheme: Option<String>,
    /// The authority of the request URI (HTTP/2 `:authority`).
    pub uri_authority: Option<String>,
    pub uri_path: String,
    pub uri_query: Option<String>,
    /// The server name of the TLS handshake, if any.
    pub sni: Option<DownstreamSni>,
    /// The client's address as text; `None` when the connection gives the
    /// unspecified address.
    pub peer_ip: Option<String>,
}

/// A request in canonical form.
#[derive(Debug)]
pub struct NormalizedRequest {
    pub method: String,
    pub host: String,
    pub path: NormalizedPath,
    pub query: CanonicalQuery,
    pub headers: NormalizedHeaders,
    pub sni_host: Option<String>,
    pub is_http2: bool,
    pub is_upgrade_req: bool,
    pub uri_scheme: Option<String>,
    pub uri_authority: Option<String>,
    pub uri_path: String,
    pub uri_query: Option<String>,
}

impl NormalizedRequest {
    /// Every part of the request is empty: no method, host, path, query or
    /// headers, no SNI, no URI parts, neither HTTP/2 nor an upgrade.
    pub open spec fn is_empty_request(&self) -> bool {
        &&& self.method@.len() == 0
        &&& self.host@.len() == 0
        &&& self.path@.len() == 0
        &&& self.query@ == (Seq::<char>::empty(), Seq::<(Seq<char>, Seq<char>)>::empty())
        &&& self.headers@.len() == 0
        &&& self.sni_host is None
        &&& !self.is_http2
        &&& !self.is_upgrade_req
        &&& self.uri_scheme is None
        &&& self.uri_authority is None
        &&& self.uri_path@.len() == 0
        &&& self.uri_query is None
    }

    /// The request of a context not yet hydrated: every part empty.
    pub fn empty() -> (n: Self)
        ensures
            n.is_empty_request(),
    {
        let pairs = pairs_new();
        proof {
            reveal_strlit("");
            assert(pairs_view(pairs_held(pairs)) =~= Seq::<(Seq<char>, Seq<char>)>::empty());
        }
        let query = CanonicalQuery::new("", pairs);
        assert(query@.0 =~= Seq::<char>::empty());
        NormalizedRequest {
            method: String::new(),
            host: String::new(),
            path: NormalizedPath(String::new()),
            query,
            headers: NormalizedHeaders::new(Vec::new()),
            sni_host: None,
            is_http2: false,
            is_upgrade_req: false,
            uri_scheme: None,
            uri_authority: None,
            uri_path: String::new(),
            uri_query: None,
        }
    }
}

/// Whether every value of every header is visible ASCII text.
pub open spec fn all_values_text(hs: Seq<(String, Vec<u8>)>) -> bool {
    forall|i: int, j: int| 0 <= i < hs.len() && 0 <= j < hs[i].1@.len() ==> is_visible_ascii(#[trigger] hs[i].1@[j])
}

/// The text view of headers whose values are visible ASCII.
pub open spec fn text_headers(hs: Seq<(String, Vec<u8>)>) -> Seq<HeaderView> {
    hs.map_values(|h: (String, Vec<u8>)| (h.0@, ascii_text(h.1@)))
}

/// Checks a WebSocket handshake: the method must be `GET` and every header
/// value text. The headers are kept as they are: changing them would break
/// the handshake.
pub fn normalize_ws_handshake(method: &str, headers: &Vec<(String, Vec<u8>)>) -> (r: Result<NormalizedHeaders, RequestRejectError>)
    ensures
        method@ != "GET"@ ==> r == Err::<NormalizedHeaders, RequestRejectError>(RequestRejectError::InvalidMethod),
        method@ == "GET"@ && !all_values_text(headers@) ==> r == Err::<NormalizedHeaders, RequestRejectError>(RequestRejectError::InvalidHeaders),
        method@ == "GET"@ && all_values_text(headers@) ==> (r matches Ok(h) && h@ == text_headers(headers@)),
{
    if !str_eq(method, "GET") {
        return Err(RequestRejectError::InvalidMethod);
    }
    normalize_http1_headers(headers)
}

/// HTTP/1 headers: every value must be visible ASCII text (tab and the
/// bytes 32 to 126, as `HeaderValue::to_str` accepts); the headers are then
/// kept as they are, in order.
pub fn normalize_http1_headers(headers: &Vec<(String, Vec<u8>)>) -> (r: Result<NormalizedHeaders, RequestRejectError>)
    ensures
        !all_values_text(headers@) ==> r == Err::<NormalizedHeaders, RequestRejectError>(RequestRejectError::InvalidHeaders),
        all_values_text(headers@) ==> (r matches Ok(h) && h@ == text_headers(headers@)),
{
    let mut out: Vec<(String, String)> = Vec::new();
    let mut i: usize = 0;
    while i < headers.len()
        invariant
            i <= headers.len(),
            forall|a: int, j: int| 0 <= a < i && 0 <= j < headers@[a].1@.len() ==> is_visible_ascii(#[trigger] headers@[a].1@[j]),
            headers_view(out@) == text_headers(headers@).take(i as int),
        decreases headers.len() - i,
    {
        match value_text(&headers[i].1) {
            Some(t) => {
                let v = string_from_chars(&t);
                let ghost before = headers_view(out@);
                let name = headers[i].0.clone();
                assert(name@ == headers@[i as int].0@);
                out.push((name, v));
                assert(headers_view(out@) =~= before.push((headers@[i as int].0@, ascii_text(headers@[i as int].1@))));
                assert(text_headers(headers@).take(i + 1) =~= text_headers(headers@).take(i as int).push(text_headers(headers@)[i as int]));
                assert(headers_view(out@) =~= text_headers(headers@).take(i + 1));
            },
            None => {
                assert(!all_values_text(headers@)) by {
                    let j = choose|j: int| 0 <= j < headers@[i as int].1@.len() && !is_visible_ascii(#[trigger] headers@[i as int].1@[j]);
                    assert(!is_visible_ascii(headers@[i as int].1@[j]));
                }
                return Err(RequestRejectError::InvalidHeaders);
            },
        }
        i = i + 1;
    }
    assert(text_headers(headers@).take(headers.len() as int) =~= text_headers(headers@));
    Ok(NormalizedHeaders::new(out))
}

/// The headers a request is hydrated with, by protocol: an upgrade request
/// gets the WebSocket handshake check (`GET` and text values, headers kept
/// as they are); an HTTP/2 request the HTTP/2 rules; any other request the
/// HTTP/1 check (text values, headers kept).
pub open spec fn request_headers_spec(is_upgrade: bool, is_http2: bool, method: Seq<char>, headers: Seq<(String, Vec<u8>)>) -> Result<Seq<HeaderView>, RequestRejectError> {
    if is_upgrade {
        if method != "GET"@ {
            Err(RequestRejectError::InvalidMethod)
        } else if !all_values_text(headers) {
            Err(RequestRejectError::InvalidHeaders)
        } else {
            Ok(text_headers(headers))
        }
    } else if is_http2 {
        match normalize_http2_headers_spec(raw_headers_view(headers)) {
            NormalizationOutcome::Reject { .. } => Err(RequestRejectError::InvalidHeaders),
            NormalizationOutcome::Accept(v) => Ok(v),
            NormalizationOutcome::Rewrite { value, .. } => Ok(value),
        }
    } else if !all_values_text(headers) {
        Err(RequestRejectError::InvalidHeaders)
    } else {
        Ok(text_headers(headers))
    }
}

/// Normalizes a request's headers by its protocol (see
/// `request_headers_spec`).
pub fn normalize_request_headers(is_upgrade: bool, is_http2: bool, method: &str, headers: &Vec<(String, Vec<u8>)>) -> (r: Result<NormalizedHeaders, RequestRejectError>)
    ensures
        match request_headers_spec(is_upgrade, is_http2, method@, headers@) {
            Err(e) => r == Err::<NormalizedHeaders, RequestRejectError>(e),
            Ok(v) => r matches Ok(h) && h@ == v,
        },
{
    if is_upgrade {
        normalize_ws_handshake(method, headers)
    } else if is_http2 {
        normalize_http2_request(headers)
    } else {
        normalize_http1_headers(headers)
    }
}

/// HTTP/2 header normalization for a request: a rejection refuses the
/// request; otherwise the canonical headers are kept.
pub fn normalize_http2_request(headers: &Vec<(String, Vec<u8>)>) -> (r: Result<NormalizedHeaders, RequestRejectError>)
    ensures
        match normalize_http2_headers_spec(raw_headers_view(headers@)) {
            NormalizationOutcome::Reject { .. } => r == Err::<NormalizedHeaders, RequestRejectError>(RequestRejectError::InvalidHeaders),
            NormalizationOutcome::Accept(v) => r matches Ok(h) && h@ == v,
            NormalizationOutcome::Rewrite { value, .. } => r matches Ok(h) && h@ == value,
        },
{
    match normalize_http2_headers(headers) {
        NormalizationOutcome::Accept(h) => Ok(h),
        NormalizationOutcome::Rewrite { value, .. } => Ok(value),
        NormalizationOutcome::Reject { .. } => Err(RequestRejectError::InvalidHeaders),
    }
}

/// `s` without its trailing dots.
pub open spec fn trim_trailing_dots(s: Seq<char>) -> Seq<char>
    decreases s.len(),
{
    if s.len() > 0 && s.last() == '.' {
        trim_trailing_dots(s.drop_last())
    } else {
        s
    }
}

fn trim_end_dots(s: &str) -> (r: String)
    ensures
        r@ == trim_trailing_dots(s@),
{
    let v = str_chars(s);
    let mut end = v.len();
    assert(v@.take(v.len() as int) =~= v@);
    while end > 0 && v[end - 1] == '.'
        invariant
            end <= v.len(),
            trim_trailing_dots(v@) == trim_trailing_dots(v@.take(end as int)),
        decreases end,
    {
        assert(v@.take(end as int).drop_last() =~= v@.take(end - 1));
        end = end - 1;
    }
    assert(v@.subrange(0, end as int) =~= v@.take(end as int));
    string_from_range(&v, 0, end)
}

/// The canonical parts of an accepted request: host, SNI host, path and
/// query.
pub type HydratedView = (Seq<char>, Option<Seq<char>>, Seq<char>, (Seq<char>, Seq<(Seq<char>, Seq<char>)>));

/// The authority a request names: the URI's, else its first `host` header.
pub open spec fn request_authority(f: RequestFacts, headers: Seq<HeaderView>) -> Option<Seq<char>> {
    match f.uri_authority {
        Some(a) => Some(a@),
        None => first_value(headers, "host"@),
    }
}

/// What hydration decides once the authority's host is parsed (`None`
/// when it does not parse): the host is lowercased; an SNI, when present,
/// must name the same host; the path and the query must normalize.
pub open spec fn hydrate_with_host_spec(f: RequestFacts, parsed_host: Option<Seq<char>>) -> Result<HydratedView, RequestRejectError> {
    match parsed_host {
        None => Err(RequestRejectError::InvalidHostHeader),
        Some(h) => {
            let host = ascii_lower_seq(h);
            let sni: Option<Seq<char>> = match f.sni {
                Some(s) => Some(ascii_lower_seq(s@)),
                None => None,
            };
            if sni matches Some(s) && s != host {
                Err(RequestRejectError::HostSniMismatch)
            } else {
                match normalize_path_spec(f.uri_path@).value_spec() {
                    None => Err(RequestRejectError::InvalidPath),
                    Some(p) => {
                        let q = match f.uri_query {
                            Some(q) => q@,
                            None => Seq::<char>::empty(),
                        };
                        match normalize_query_spec(q).value_spec() {
                            None => Err(RequestRejectError::InvalidQueryString),
                            Some(cq) => Ok((host, sni, p, cq)),
                        }
                    },
                }
            }
        },
    }
}

/// What hydration decides, once the headers are normalized: the
/// authority (trailing dots dropped) must be present and parse; the rest
/// is `hydrate_with_host_spec`.
pub open spec fn hydrate_spec(f: RequestFacts, headers: Seq<HeaderView>) -> Result<HydratedView, RequestRejectError> {
    match request_authority(f, headers) {
        None => Err(RequestRejectError::InvalidHostHeader),
        Some(a) => {
            let t = trim_trailing_dots(a);
            if t.len() == 0 {
                Err(RequestRejectError::InvalidHostHeader)
            } else {
                hydrate_with_host_spec(f, authority_host(t))
            }
        },
    }
}

/// The canonical request `n` carries the decided parts `v` of the request
/// with these facts and headers.
pub open spec fn request_carries(n: NormalizedRequest, facts: RequestFacts, headers: Seq<HeaderView>, v: HydratedView) -> bool {
    &&& n.host@ == v.0
    &&& opt_str_view(n.sni_host) == v.1
    &&& n.path@ == v.2
    &&& n.query@ == v.3
    &&& n.headers@ == headers
    &&& n.method@ == facts.method@
    &&& n.is_http2 == facts.is_http2
    &&& n.is_upgrade_req == facts.is_upgrade_req
    &&& opt_str_view(n.uri_scheme) == opt_str_view(facts.uri_scheme)
    &&& opt_str_view(n.uri_authority) == opt_str_view(facts.uri_authority)
    &&& n.uri_path@ == facts.uri_path@
    &&& opt_str_view(n.uri_query) == opt_str_view(facts.uri_query)
}

/// Hydrates a request from its facts and its normalized headers.
pub fn hydrate_request(facts: &RequestFacts, headers: NormalizedHeaders) -> (r: Result<NormalizedRequest, RequestRejectError>)
    ensures
        match hydrate_spec(*facts, headers@) {
            Err(e) => r == Err::<NormalizedRequest, RequestRejectError>(e),
            Ok(v) => r matches Ok(n) && request_carries(n, *facts, headers@, v),
        },
{
    let authority = match &facts.uri_authority {
        Some(a) => a.clone(),
        None => match headers.get("host") {
            Some(h) => h.clone(),
            None => return Err(RequestRejectError::InvalidHostHeader),
        },
    };
    let trimmed = trim_end_dots(authority.as_str());
    if trimmed.as_str().is_empty() {
        return Err(RequestRejectError::InvalidHostHeader);
    }
    let parsed = parse_authority_host(trimmed.as_str());
    hydrate_with_host(facts, headers, parsed)
}

/// Hydrates a request whose authority's host was parsed to `parsed_host`
/// (`None` when the authority does not parse).
pub fn hydrate_with_host(facts: &RequestFacts, headers: NormalizedHeaders, parsed_host: Option<String>) -> (r: Result<NormalizedRequest, RequestRejectError>)
    ensures
        match hydrate_with_host_spec(*facts, opt_str_view(parsed_host)) {
            Err(e) => r == Err::<NormalizedRequest, RequestRejectError>(e),
            Ok(v) => r matches Ok(n) && request_carries(n, *facts, headers@, v),
        },
{
    let parsed = match parsed_host {
        Some(h) => h,
        None => return Err(RequestRejectError::InvalidHostHeader),
    };
    let host = to_ascii_lowercase(parsed.as_str());
    let sni_host = match &facts.sni {
        Some(s) => Some(s.to_ascii_lowercase()),
        None => None,
    };
    if let Some(s) = &sni_host {
        if !str_eq(s.as_str(), host.as_str()) {
            return Err(RequestRejectError::HostSniMismatch);
        }
    }
    let path = match normalize_path(facts.uri_path.as_str()) {
        NormalizationOutcome::Accept(p) => p,
        NormalizationOutcome::Rewrite { value, .. } => value,
        NormalizationOutcome::Reject { .. } => return Err(RequestRejectError::InvalidPath),
    };
    let raw_query = match &facts.uri_query {
        Some(q) => q.clone(),
        None => String::new(),
    };
    let query = match normalize_query(raw_query.as_str()) {
        NormalizationOutcome::Accept(q) => q,
        NormalizationOutcome::Rewrite { value, .. } => value,
        NormalizationOutcome::Reject { .. } => return Err(RequestRejectError::InvalidQueryString),
    };
    let uri_scheme = match &facts.uri_scheme {
        Some(a) => Some(a.clone()),
        None => None,
    };
    let uri_authority = match &facts.uri_authority {
        Some(a) => Some(a.clone()),
        None => None,
    };
    let uri_query = match &facts.uri_query {
        Some(q) => Some(q.clone()),
        None => None,
    };
    Ok(NormalizedRequest {
        method: facts.method.clone(),
        host,
        path,
        query,
        headers,
        sni_host,
        is_http2: facts.is_http2,
        is_upgrade_req: facts.is_upgrade_req,
        uri_scheme,
        uri_authority,
        uri_path: facts.uri_path.clone(),
        uri_query,
    })
}


/// The text of a request URI from its parts.
pub open spec fn uri_text(n: NormalizedRequest) -> Seq<char> {
    let scheme = match n.uri_scheme {
        Some(sc) => sc@ + "://"@,
        None => Seq::empty(),
    };
    let authority = match n.uri_authority {
        Some(a) => a@,
        None => Seq::empty(),
    };
    let query = match n.uri_query {
        Some(q) => "?"@ + q@,
        None => Seq::empty(),
    };
    scheme + authority + n.uri_path@ + query
}

/// The request context carried through the proxy pipeline.
#[derive(Debug)]
pub struct RequestCtx {
    /// Whether the context was hydrated from a request.
    pub hydrated: bool,
    /// Service name for routing decisions.
    pub service: Option<String>,
    /// An override of the path sent upstream.
    pub upstream_path: Option<String>,
    /// Whether a WebSocket connection was opened.
    pub ws_opened: bool,
    /// Upstream authority for HTTP/2 requests.
    pub upstream_authority: Option<String>,
    /// The selected upstream.
    pub selected_upstream: Option<(crate::traffic::types::ServiceId, crate::traffic::types::UpstreamId)>,
    /// Whether the circuit breaker counted this request as started.
    pub cb_started: bool,
    /// The request in canonical form (set by hydration).
    pub normalized_request: NormalizedRequest,
    /// The client's address as text; `None` while it is unspecified.
    pub peer_ip: Option<String>,
}

/// The client address a context holds after hydration: its own when it
/// has one, else the request's.
pub open spec fn peer_after(ctx_peer: Option<String>, facts: RequestFacts) -> Option<Seq<char>> {
    match ctx_peer {
        Some(p) => Some(p@),
        None => opt_str_view(facts.peer_ip),
    }
}

/// `b` is `a` with at most its client address changed.
pub open spec fn same_but_peer(a: RequestCtx, b: RequestCtx) -> bool {
    &&& a.hydrated == b.hydrated
    &&& a.service == b.service
    &&& a.upstream_path == b.upstream_path
    &&& a.ws_opened == b.ws_opened
    &&& a.upstream_authority == b.upstream_authority
    &&& a.selected_upstream == b.selected_upstream
    &&& a.cb_started == b.cb_started
    &&& a.normalized_request == b.normalized_request
}

impl RequestCtx {
    pub open spec fn request_spec(&self) -> NormalizedRequest {
        self.normalized_request
    }

    /// A context before hydration.
    pub fn empty() -> (c: Self)
        ensures
            !c.hydrated,
            c.service is None,
            c.upstream_path is None,
            !c.ws_opened,
            c.upstream_authority is None,
            c.selected_upstream is None,
            !c.cb_started,
            c.peer_ip is None,
            c.normalized_request.is_empty_request(),
    {
        RequestCtx {
            hydrated: false,
            service: None,
            upstream_path: None,
            ws_opened: false,
            upstream_authority: None,
            selected_upstream: None,
            cb_started: false,
            normalized_request: NormalizedRequest::empty(),
            peer_ip: None,
        }
    }

    /// Hydrates the context from a request's facts and normalized headers.
    /// On success the canonical request is stored and the context marked
    /// hydrated; a refused request leaves the context as it was.
    /// Records the client address, unless the context already holds one.
    pub fn record_peer(&mut self, peer_ip: &Option<String>)
        ensures
            opt_str_view(final(self).peer_ip) == (match old(self).peer_ip {
                Some(p) => Some(p@),
                None => opt_str_view(*peer_ip),
            }),
            same_but_peer(*old(self), *final(self)),
    {
        if self.peer_ip.is_none() {
            self.peer_ip = match peer_ip {
                Some(p) => Some(p.clone()),
                None => None,
            };
        }
    }

    pub fn hydrate(&mut self, facts: &RequestFacts, headers: NormalizedHeaders) -> (r: Result<(), RequestRejectError>)
        ensures
            opt_str_view(final(self).peer_ip) == peer_after(old(self).peer_ip, *facts),
            match hydrate_spec(*facts, headers@) {
                Err(e) => r == Err::<(), RequestRejectError>(e) && same_but_peer(*old(self), *final(self)),
                Ok((host, sni, p, q)) => {
                    let n = final(self).request_spec();
                    &&& r is Ok
                    &&& final(self).hydrated
                    &&& n.host@ == host
                    &&& opt_str_view(n.sni_host) == sni
                    &&& n.path@ == p
                    &&& n.query@ == q
                    &&& n.headers@ == headers@
                    &&& n.method@ == facts.method@
                    &&& n.is_http2 == facts.is_http2
                    &&& n.is_upgrade_req == facts.is_upgrade_req
                    &&& opt_str_view(n.uri_scheme) == opt_str_view(facts.uri_scheme)
                    &&& opt_str_view(n.uri_authority) == opt_str_view(facts.uri_authority)
                    &&& n.uri_path@ == facts.uri_path@
                    &&& opt_str_view(n.uri_query) == opt_str_view(facts.uri_query)
                    &&& final(self).upstream_path == old(self).upstream_path
                    &&& final(self).upstream_authority == old(self).upstream_authority
                },
            },
    {
        self.record_peer(&facts.peer_ip);
        match hydrate_request(facts, headers) {
            Ok(n) => {
                self.normalized_request = n;
                self.hydrated = true;
                Ok(())
            },
            Err(e) => Err(e),
        }
    }

    /// The canonical request path.
    pub fn canonical_path(&self) -> (s: &str)
        ensures
            s@ == self.request_spec().path@,
    {
        self.normalized_request.path.as_str()
    }

    /// The path sent upstream: the override when set, else the canonical path.
    pub fn upstream_path(&self) -> (s: &str)
        ensures
            s@ == (match self.upstream_path {
                Some(p) => p@,
                None => self.request_spec().path@,
            }),
    {
        match &self.upstream_path {
            Some(p) => p.as_str(),
            None => self.canonical_path(),
        }
    }

    /// The query string as received.
    pub fn query_string(&self) -> (s: &str)
        ensures
            s@ == self.request_spec().query@.0,
    {
        self.normalized_request.query.raw()
    }

    /// The URI sent upstream: the upstream path, then `?` and the query
    /// string when the request carried one.
    pub fn upstream_uri(&self) -> (s: String)
        ensures
            s@ == (if self.request_spec().query@.0.len() == 0 {
                self.upstream_path_spec()
            } else {
                self.upstream_path_spec() + "?"@ + self.request_spec().query@.0
            }),
    {
        let query = self.query_string();
        let path = self.upstream_path();
        if query.is_empty() {
            path.to_owned()
        } else {
            let with_mark = crate::text::concat(path, "?");
            crate::text::concat(with_mark.as_str(), query)
        }
    }

    pub open spec fn upstream_path_spec(&self) -> Seq<char> {
        match self.upstream_path {
            Some(p) => p@,
            None => self.request_spec().path@,
        }
    }

    /// The SNI host when present, otherwise the host.
    pub fn effective_host(&self) -> (s: &str)
        ensures
            s@ == (match self.request_spec().sni_host {
                Some(h) => h@,
                None => self.request_spec().host@,
            }),
    {
        match &self.normalized_request.sni_host {
            Some(h) => h.as_str(),
            None => self.normalized_request.host.as_str(),
        }
    }

    /// `https` when the request came over TLS with an SNI, else `http`.
    pub fn scheme(&self) -> (s: &'static str)
        ensures
            s@ == (if self.request_spec().sni_host is Some { "https"@ } else { "http"@ }),
    {
        if self.normalized_request.sni_host.is_some() {
            "https"
        } else {
            "http"
        }
    }

    /// The request method.
    pub fn method_str(&self) -> (s: &str)
        ensures
            s@ == self.request_spec().method@,
    {
        self.normalized_request.method.as_str()
    }

    /// Whether the method has defined body semantics: `POST`, `PATCH`, `PUT`.
    pub fn has_defined_body_semantics(&self) -> (b: bool)
        ensures
            b == (self.request_spec().method@ == "POST"@ || self.request_spec().method@ == "PATCH"@
                || self.request_spec().method@ == "PUT"@),
    {
        let m = self.normalized_request.method.as_str();
        str_eq(m, "POST") || str_eq(m, "PATCH") || str_eq(m, "PUT")
    }

    pub fn is_http2(&self) -> (b: bool)
        ensures
            b == self.request_spec().is_http2,
    {
        self.normalized_request.is_http2
    }

    pub fn is_upgrade_req(&self) -> (b: bool)
        ensures
            b == self.request_spec().is_upgrade_req,
    {
        self.normalized_request.is_upgrade_req
    }

    /// The authority of the downstream request URI (present for HTTP/2).
    pub fn downstream_authority(&self) -> (a: Option<&str>)
        ensures
            match a {
                Some(s) => self.request_spec().uri_authority matches Some(u) && s@ == u@,
                None => self.request_spec().uri_authority is None,
            },
    {
        match &self.normalized_request.uri_authority {
            Some(a) => Some(a.as_str()),
            None => None,
        }
    }

    /// The upstream authority for HTTP/2 requests, when set.
    pub fn upstream_authority(&self) -> (a: Option<&str>)
        ensures
            match a {
                Some(s) => self.upstream_authority matches Some(u) && s@ == u@,
                None => self.upstream_authority is None,
            },
    {
        match &self.upstream_authority {
            Some(a) => Some(a.as_str()),
            None => None,
        }
    }

    /// The request URI as received, as text: `scheme://` when it has a
    /// scheme, the authority, the path, and `?query` when it has a query.
    pub fn original_uri_string(&self) -> (s: String)
        ensures
            s@ == uri_text(self.request_spec()),
    {
        let n = &self.normalized_request;
        let mut out = String::new();
        if let Some(sc) = &n.uri_scheme {
            out = concat(sc.as_str(), "://");
        }
        if let Some(a) = &n.uri_authority {
            out = concat(out.as_str(), a.as_str());
        }
        out = concat(out.as_str(), n.uri_path.as_str());
        if let Some(q) = &n.uri_query {
            out = concat(out.as_str(), "?");
            out = concat(out.as_str(), q.as_str());
        }
        out
    }

    /// The path of the request URI as received.
    pub fn original_uri_path(&self) -> (s: &str)
        ensures
            s@ == self.request_spec().uri_path@,
    {
        self.normalized_request.uri_path.as_str()
    }

    /// The normalized headers.
    pub fn headers(&self) -> (h: &NormalizedHeaders)
        ensures
            h@ == self.request_spec().headers@,
    {
        &self.normalized_request.headers
    }

    /// Replaces the canonical request (for a synthetic request).
    pub fn set_normalized_request(&mut self, request: NormalizedRequest)
        ensures
            final(self).request_spec() == request,
            final(self).hydrated == old(self).hydrated,
            final(self).upstream_path == old(self).upstream_path,
            final(self).upstream_authority == old(self).upstream_authority,
    {
        self.normalized_request = request;
    }

    /// Replaces the canonical path (a device rewrote it).
    pub fn set_canonical_path(&mut self, path: String)
        ensures
            final(self).request_spec().path@ == path@,
            final(self).request_spec().host == old(self).request_spec().host,
            final(self).request_spec().method == old(self).request_spec().method,
            final(self).upstream_path == old(self).upstream_path,
            final(self).hydrated == old(self).hydrated,
    {
        self.normalized_request.path = NormalizedPath(path);
    }
}

} // verus!
