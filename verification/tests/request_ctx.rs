use snakeway::ctx::error::RequestRejectError;
use snakeway::ctx::request::{
    hydrate_request, hydrate_with_host, normalize_http1_headers, normalize_http2_request, normalize_request_headers, normalize_ws_handshake, RequestCtx, RequestFacts,
};
use snakeway::ctx::sni::DownstreamSni;
use snakeway::normalization::headers::NormalizedHeaders;

fn facts(path: &str, query: Option<&str>, authority: Option<&str>) -> RequestFacts {
    RequestFacts {
        method: "GET".to_string(),
        is_http2: false,
        is_upgrade_req: false,
        uri_scheme: None,
        uri_authority: authority.map(|s| s.to_string()),
        uri_path: path.to_string(),
        uri_query: query.map(|s| s.to_string()),
        sni: None,
        peer_ip: None,
    }
}

fn host_headers(host: &str) -> NormalizedHeaders {
    NormalizedHeaders::new(vec![("host".to_string(), host.to_string())])
}

#[test]
fn hydrate_from_session_basic() {
    let mut ctx = RequestCtx::empty();
    let result = ctx.hydrate(&facts("/foo/../bar", Some("b=2&a=1"), None), host_headers("Example.com."));
    assert!(result.is_ok());
    assert!(ctx.hydrated);
    assert_eq!(ctx.canonical_path(), "/bar");
    assert_eq!(ctx.effective_host(), "example.com");
    assert_eq!(ctx.query_string(), "b=2&a=1");
    assert_eq!(ctx.scheme(), "http");
}

#[test]
fn upstream_path_returns_override_when_set() {
    let mut ctx = RequestCtx::empty();
    ctx.hydrate(&facts("/a", None, Some("h.test")), NormalizedHeaders::new(vec![])).unwrap();
    ctx.upstream_path = Some("/override".to_string());
    assert_eq!(ctx.upstream_path(), "/override");
}

#[test]
fn upstream_path_returns_canonical_path_when_not_set() {
    let mut ctx = RequestCtx::empty();
    ctx.hydrate(&facts("//a//b", None, Some("h.test")), NormalizedHeaders::new(vec![])).unwrap();
    assert_eq!(ctx.upstream_path(), "/a/b");
}

#[test]
fn upstream_uri_includes_query_string() {
    let mut ctx = RequestCtx::empty();
    ctx.hydrate(&facts("/a", Some("x=1"), Some("h.test")), NormalizedHeaders::new(vec![])).unwrap();
    assert_eq!(ctx.upstream_uri(), "/a?x=1");
}

#[test]
fn upstream_uri_omits_query_delimiter_when_no_query() {
    let mut ctx = RequestCtx::empty();
    ctx.hydrate(&facts("/a", None, Some("h.test")), NormalizedHeaders::new(vec![])).unwrap();
    assert_eq!(ctx.upstream_uri(), "/a");
}

#[test]
fn upstream_uri_appends_query_to_upstream_path_override() {
    let mut ctx = RequestCtx::empty();
    ctx.hydrate(&facts("/a", Some("x=1"), Some("h.test")), NormalizedHeaders::new(vec![])).unwrap();
    ctx.upstream_path = Some("/b".to_string());
    assert_eq!(ctx.upstream_uri(), "/b?x=1");
}

#[test]
fn upstream_authority_return_none_when_not_set() {
    let ctx = RequestCtx::empty();
    assert_eq!(ctx.upstream_authority(), None);
}

#[test]
fn upstream_authority_getter_should_return_authority_when_set() {
    let mut ctx = RequestCtx::empty();
    ctx.upstream_authority = Some("backend:443".to_string());
    assert_eq!(ctx.upstream_authority(), Some("backend:443"));
}

#[test]
fn method_str_is_normalized_if_set() {
    let mut ctx = RequestCtx::empty();
    let mut f = facts("/a", None, Some("h.test"));
    f.method = "POST".to_string();
    ctx.hydrate(&f, NormalizedHeaders::new(vec![])).unwrap();
    assert_eq!(ctx.method_str(), "POST");
    assert!(ctx.has_defined_body_semantics());
}

#[test]
fn original_uri_path_is_intact() {
    let mut ctx = RequestCtx::empty();
    ctx.hydrate(&facts("/a/./b", None, Some("h.test")), NormalizedHeaders::new(vec![])).unwrap();
    assert_eq!(ctx.original_uri_path(), "/a/./b");
    assert_eq!(ctx.canonical_path(), "/a/b");
}

#[test]
fn missing_host_is_refused() {
    let result = hydrate_request(&facts("/", None, None), NormalizedHeaders::new(vec![]));
    assert_eq!(result.err(), Some(RequestRejectError::InvalidHostHeader));
    let dots = hydrate_request(&facts("/", None, Some("...")), NormalizedHeaders::new(vec![]));
    assert_eq!(dots.err(), Some(RequestRejectError::InvalidHostHeader));
    let bad = hydrate_request(&facts("/", None, Some("exa mple.com")), NormalizedHeaders::new(vec![]));
    assert_eq!(bad.err(), Some(RequestRejectError::InvalidHostHeader));
}

#[test]
fn sni_must_match_host() {
    let mut f = facts("/", None, Some("api.example.com:8443"));
    f.sni = Some(DownstreamSni::new("API.example.com".to_string()));
    let ok = hydrate_request(&f, NormalizedHeaders::new(vec![])).unwrap();
    assert_eq!(ok.host, "api.example.com");
    assert_eq!(ok.sni_host.as_deref(), Some("api.example.com"));
    f.sni = Some(DownstreamSni::new("other.example.com".to_string()));
    assert_eq!(hydrate_request(&f, NormalizedHeaders::new(vec![])).err(), Some(RequestRejectError::HostSniMismatch));
}

#[test]
fn bad_path_and_query_are_refused() {
    let p = hydrate_request(&facts("/../x", None, Some("h")), NormalizedHeaders::new(vec![]));
    assert_eq!(p.err(), Some(RequestRejectError::InvalidPath));
    let q = hydrate_request(&facts("/", Some("a=%zz"), Some("h")), NormalizedHeaders::new(vec![]));
    assert_eq!(q.err(), Some(RequestRejectError::InvalidQueryString));
}

#[test]
fn ws_handshake_rejects_non_get_method() {
    let r = normalize_ws_handshake("POST", &vec![]);
    assert_eq!(r.err(), Some(RequestRejectError::InvalidMethod));
}

#[test]
fn ws_handshake_rejects_non_utf8_header_value() {
    let r = normalize_ws_handshake("GET", &vec![("x".to_string(), vec![0xff])]);
    assert_eq!(r.err(), Some(RequestRejectError::InvalidHeaders));
    let nul = normalize_ws_handshake("GET", &vec![("x".to_string(), vec![b'a', 0])]);
    assert_eq!(nul.err(), Some(RequestRejectError::InvalidHeaders));
}

#[test]
fn ws_handshake_keeps_headers_unchanged() {
    let r = normalize_ws_handshake("GET", &vec![("upgrade".to_string(), b"websocket".to_vec()), ("x".to_string(), b" a ".to_vec())]).unwrap();
    assert_eq!(r.as_list(), &[("upgrade".to_string(), "websocket".to_string()), ("x".to_string(), " a ".to_string())]);
}

#[test]
fn hydrate_runs_http2_normalization() {
    let bad = normalize_http2_request(&vec![("connection".to_string(), b"close".to_vec())]);
    assert_eq!(bad.err(), Some(RequestRejectError::InvalidHeaders));
    let ok = normalize_http2_request(&vec![("x".to_string(), b" v ".to_vec())]).unwrap();
    assert_eq!(ok.get("x").map(|s| s.as_str()), Some("v"));
}

#[test]
fn reject_messages() {
    assert_eq!(RequestRejectError::HostSniMismatch.message(), "host and SNI must match if SNI is present");
    assert_eq!(RequestRejectError::InvalidPath.message(), "invalid request path");
}

#[test]
fn sni_lowercases() {
    assert_eq!(DownstreamSni::new("ExAmple.COM".to_string()).to_ascii_lowercase(), "example.com");
}

fn ws_facts(path: &str) -> RequestFacts {
    RequestFacts { is_upgrade_req: true, ..facts(path, None, None) }
}

fn ws_headers() -> Vec<(String, Vec<u8>)> {
    vec![
        ("host".to_string(), b"example.test".to_vec()),
        ("connection".to_string(), b"Upgrade".to_vec()),
        ("upgrade".to_string(), b"websocket".to_vec()),
    ]
}

#[test]
fn ws_handshake_rejects_invalid_path() {
    let mut ctx = RequestCtx::empty();
    let headers = normalize_ws_handshake("GET", &ws_headers()).unwrap();
    let result = ctx.hydrate(&ws_facts("/../secret"), headers);
    assert!(matches!(result, Err(RequestRejectError::InvalidPath)));
    assert!(!ctx.hydrated, "should not mark hydrated on rejection");
}

#[test]
fn ws_handshake_accepts_and_marks_normalized() {
    let mut ctx = RequestCtx::empty();
    let headers = normalize_ws_handshake("GET", &ws_headers()).unwrap();
    let result = ctx.hydrate(&ws_facts("/ws"), headers);
    assert!(result.is_ok());
    assert!(ctx.hydrated, "WS handshake should mark ctx.hydrated = true");
    assert_eq!(ctx.canonical_path(), "/ws");
}

#[test]
fn http_normalize_builds_normalized_request_and_marks_normalized() {
    let mut ctx = RequestCtx::empty();
    let result = ctx.hydrate(&facts("/books", Some("b=2&a=1"), None), host_headers("example.test"));
    assert!(result.is_ok());
    assert!(ctx.hydrated, "HTTP request should mark ctx.hydrated = true");
    assert_eq!(ctx.method_str(), "GET");
    assert_eq!(ctx.canonical_path(), "/books");
    assert_eq!(ctx.original_uri_path(), "/books");
}

#[test]
fn original_uri_is_intact() {
    let expected_uri = "/hello?x=1";
    let mut ctx = RequestCtx::empty();
    let _ = ctx.hydrate(&facts("/hello", Some("x=1"), None), host_headers("example.test"));
    assert_eq!(ctx.original_uri_string(), expected_uri);
}

#[test]
fn absolute_uri_text_keeps_scheme_and_authority() {
    let mut ctx = RequestCtx::empty();
    let f = RequestFacts { uri_scheme: Some("https".to_string()), ..facts("/grpc.Service/Method", None, Some("example.test")) };
    ctx.hydrate(&f, NormalizedHeaders::new(vec![])).unwrap();
    assert_eq!(ctx.original_uri_string(), "https://example.test/grpc.Service/Method");
}

#[test]
fn hydration_goes_on_from_the_parsed_host() {
    let f = facts("/a", Some("x=1"), Some("ignored"));
    assert_eq!(
        hydrate_with_host(&f, NormalizedHeaders::new(vec![]), None).err(),
        Some(RequestRejectError::InvalidHostHeader)
    );
    let n = hydrate_with_host(&f, NormalizedHeaders::new(vec![]), Some("Example.TEST".to_string())).unwrap();
    assert_eq!(n.host, "example.test");
    let bad_query = facts("/a", Some("x=%+1"), Some("h.test"));
    assert_eq!(
        hydrate_with_host(&bad_query, NormalizedHeaders::new(vec![]), Some("h.test".to_string())).err(),
        Some(RequestRejectError::InvalidQueryString)
    );
}

#[test]
fn hydration_records_the_peer_address() {
    let mut ctx = RequestCtx::empty();
    assert_eq!(ctx.peer_ip, None);
    let headers = normalize_http2_request(&vec![
        ("host".to_string(), b"example.test".to_vec()),
        ("x-test".to_string(), b" a ".to_vec()),
        ("x-test".to_string(), b"b".to_vec()),
    ])
    .unwrap();
    let f = RequestFacts {
        is_http2: true,
        uri_scheme: Some("https".to_string()),
        peer_ip: Some("127.0.0.1".to_string()),
        ..facts("/grpc.Service/Method", None, Some("example.test"))
    };
    ctx.hydrate(&f, headers).unwrap();
    assert!(ctx.hydrated);
    assert!(ctx.is_http2());
    assert_eq!(ctx.headers().get("x-test").map(|s| s.as_str()), Some("a, b"));
    assert_eq!(ctx.peer_ip.as_deref(), Some("127.0.0.1"));
}

#[test]
fn a_refused_request_still_records_the_peer_address() {
    let mut ctx = RequestCtx::empty();
    let f = RequestFacts { peer_ip: Some("10.0.0.9".to_string()), ..facts("/../x", None, Some("h.test")) };
    assert_eq!(ctx.hydrate(&f, NormalizedHeaders::new(vec![])).err(), Some(RequestRejectError::InvalidPath));
    assert!(!ctx.hydrated);
    assert_eq!(ctx.peer_ip.as_deref(), Some("10.0.0.9"));
    // A known address is kept.
    ctx.record_peer(&Some("10.0.0.10".to_string()));
    assert_eq!(ctx.peer_ip.as_deref(), Some("10.0.0.9"));
}

#[test]
fn http1_header_values_must_be_text() {
    let ok = normalize_http1_headers(&vec![("x".to_string(), b" a\tb ".to_vec())]).unwrap();
    assert_eq!(ok.as_list(), &[("x".to_string(), " a\tb ".to_string())]);
    let bad = normalize_http1_headers(&vec![("x".to_string(), vec![b'a', 0x80])]);
    assert_eq!(bad.err(), Some(RequestRejectError::InvalidHeaders));
}

#[test]
fn request_headers_follow_the_protocol() {
    let raw = vec![("connection".to_string(), b"keep-alive".to_vec()), ("X".to_string(), b"v".to_vec())];
    // An upgrade must be a GET and keeps its headers as they are.
    assert_eq!(normalize_request_headers(true, false, "POST", &raw).unwrap_err(), RequestRejectError::InvalidMethod);
    let ws = normalize_request_headers(true, false, "GET", &raw).unwrap();
    assert_eq!(ws.len(), 2);
    assert_eq!(ws.as_list()[0].0, "connection");
    // HTTP/2 refuses connection-specific headers.
    assert_eq!(normalize_request_headers(false, true, "GET", &raw).unwrap_err(), RequestRejectError::InvalidHeaders);
    // HTTP/1 keeps text headers in order and refuses a non-text value.
    let h1 = normalize_request_headers(false, false, "POST", &raw).unwrap();
    assert_eq!(h1.as_list()[1], ("X".to_string(), "v".to_string()));
    let binary = vec![("X".to_string(), vec![0x01u8])];
    assert_eq!(normalize_request_headers(false, false, "GET", &binary).unwrap_err(), RequestRejectError::InvalidHeaders);
    assert_eq!(normalize_request_headers(true, false, "GET", &binary).unwrap_err(), RequestRejectError::InvalidHeaders);
}

#[test]
fn an_empty_context_holds_an_empty_request() {
    let ctx = RequestCtx::empty();
    let n = &ctx.normalized_request;
    assert!(!ctx.hydrated);
    assert_eq!(n.method, "");
    assert_eq!(n.host, "");
    assert_eq!(n.path.as_str(), "");
    assert_eq!(n.query.raw(), "");
    assert!(n.query.pairs().is_empty());
    assert_eq!(n.headers.len(), 0);
    assert!(n.sni_host.is_none() && n.uri_scheme.is_none() && n.uri_authority.is_none() && n.uri_query.is_none());
    assert_eq!(n.uri_path, "");
    assert!(!n.is_http2 && !n.is_upgrade_req);
}
