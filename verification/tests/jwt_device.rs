use snakeway::jwt::claims::{ClaimValue, JwtClaims, ValidatedToken};
use snakeway::jwt::config::{split_comma_list, AuthConfig, ConfigValues};
use snakeway::jwt::device::{
    error_response, extract_bearer_token, success_patch, Action, Header, HeaderOp, JwtAuthDevice,
    RequestStep,
};
use snakeway::jwt::error::AuthError;

fn config() -> AuthConfig {
    AuthConfig {
        secret: vec![7u8; 32],
        issuer: "iss".to_string(),
        audience: "aud".to_string(),
        user_id_claim: "sub".to_string(),
        tenant_id_claim: Some("tenant_id".to_string()),
        public_paths: vec!["/health".to_string()],
        token_type: None,
        clock_skew_leeway_seconds: 0,
        revoked_jti: vec![],
    }
}

fn values() -> ConfigValues {
    ConfigValues {
        secret: Some("dGVzdC1zZWNyZXQta2V5LWZvci1obWFjLXNoYTI1NiE=".to_string()),
        issuer: Some("https://auth.example.com".to_string()),
        audience: Some("https://api.example.com".to_string()),
        user_id_claim: None,
        tenant_id_claim: None,
        public_paths: Some("/health, /ready ,/.well-known/openid-configuration".to_string()),
        token_type: None,
        clock_skew_leeway_seconds: Some(" 30 ".to_string()),
        revoked_jti: Some("a, ,b".to_string()),
    }
}

#[test]
fn bearer_token_is_extracted_case_insensitively() {
    assert_eq!(extract_bearer_token("Bearer abc"), Some("abc".to_string()));
    assert_eq!(extract_bearer_token("  bEaReR   abc  "), Some("abc".to_string()));
    assert_eq!(extract_bearer_token("Basic abc"), None);
    assert_eq!(extract_bearer_token("Bearer"), None);
    assert_eq!(extract_bearer_token("Bearer "), None);
    assert_eq!(extract_bearer_token("Bearer  "), None);
    assert_eq!(extract_bearer_token("Bearer x"), Some("x".to_string()));
    assert_eq!(extract_bearer_token("Béarer abc"), None);
}

#[test]
fn error_answers_name_no_reason() {
    match error_response(&AuthError::TokenExpired) {
        Action::Respond(r) => {
            assert_eq!(r.status, 401);
            assert_eq!(r.body, br#"{"error":"unauthorized"}"#.to_vec());
            assert_eq!(r.headers.len(), 2);
            assert_eq!(r.headers[0].name, "content-type");
            assert_eq!(r.headers[0].value, "application/json");
            assert_eq!(r.headers[1].name, "cache-control");
            assert_eq!(r.headers[1].value, "no-store");
        }
        Action::Continue => panic!("expected a response"),
    }
    match error_response(&AuthError::Config("x")) {
        Action::Respond(r) => {
            assert_eq!(r.status, 500);
            assert_eq!(r.body, br#"{"error":"internal error"}"#.to_vec());
        }
        Action::Continue => panic!("expected a response"),
    }
}

#[test]
fn success_patch_strips_identity_then_sets_it() {
    let token = ValidatedToken {
        claims: JwtClaims {
            iss: None,
            aud: None,
            sub: Some("u1".to_string()),
            exp: None,
            nbf: None,
            jti: None,
            extra: vec![("tenant_id".to_string(), ClaimValue::Number("12".to_string()))],
        },
    };
    let patch = success_patch(&token, &config()).unwrap();
    assert!(patch.set_route_path.is_none());
    assert_eq!(patch.ops.len(), 5);
    assert!(matches!(&patch.ops[0], HeaderOp::Remove(n) if n == "x-user-id"));
    assert!(matches!(&patch.ops[1], HeaderOp::Remove(n) if n == "x-tenant-id"));
    assert!(matches!(&patch.ops[2], HeaderOp::Remove(n) if n == "authorization"));
    assert!(matches!(&patch.ops[3], HeaderOp::Assign(h) if h.name == "x-user-id" && h.value == "u1"));
    assert!(matches!(&patch.ops[4], HeaderOp::Assign(h) if h.name == "x-tenant-id" && h.value == "12"));
}

#[test]
fn success_patch_without_tenant_claim_only_sets_user() {
    let token = ValidatedToken {
        claims: JwtClaims { iss: None, aud: None, sub: Some("u1".to_string()), exp: None, nbf: None, jti: None, extra: vec![] },
    };
    let patch = success_patch(&token, &config()).unwrap();
    assert_eq!(patch.ops.len(), 4);
}

#[test]
fn public_path_bypasses_authentication() {
    let step = JwtAuthDevice::begin_request(&Ok(config()), "/health", &vec![]);
    match step {
        RequestStep::Done(res) => {
            assert!(matches!(res.action, Action::Continue));
            let patch = res.patch.unwrap();
            assert_eq!(patch.ops.len(), 2);
        }
        RequestStep::Validate(_) => panic!("expected a bypass"),
    }
}

#[test]
fn missing_bearer_token_is_unauthorized() {
    let headers = vec![Header { name: "Authorization".to_string(), value: "Basic x".to_string() }];
    match JwtAuthDevice::begin_request(&Ok(config()), "/api", &headers) {
        RequestStep::Done(res) => match res.action {
            Action::Respond(r) => assert_eq!(r.status, 401),
            Action::Continue => panic!("expected a response"),
        },
        RequestStep::Validate(_) => panic!("expected a refusal"),
    }
}

#[test]
fn first_authorization_header_gives_the_token() {
    let headers = vec![
        Header { name: "x-other".to_string(), value: "Bearer no".to_string() },
        Header { name: "AUTHORIZATION".to_string(), value: "Bearer tok".to_string() },
        Header { name: "authorization".to_string(), value: "Bearer later".to_string() },
    ];
    match JwtAuthDevice::begin_request(&Ok(config()), "/api", &headers) {
        RequestStep::Validate(t) => assert_eq!(t, "tok"),
        RequestStep::Done(_) => panic!("expected a token"),
    }
}

#[test]
fn config_error_is_answered_with_500() {
    match JwtAuthDevice::begin_request(&Err(AuthError::Config("missing")), "/health", &vec![]) {
        RequestStep::Done(res) => match res.action {
            Action::Respond(r) => assert_eq!(r.status, 500),
            Action::Continue => panic!("expected a response"),
        },
        RequestStep::Validate(_) => panic!("expected a refusal"),
    }
}

#[test]
fn finish_request_answers_errors_and_patches_successes() {
    let err = JwtAuthDevice::finish_request(&Err(AuthError::BadSignature), &config());
    assert!(err.patch.is_none());
    assert!(matches!(err.action, Action::Respond(ref r) if r.status == 401));
    let token = ValidatedToken {
        claims: JwtClaims { iss: None, aud: None, sub: Some("u".to_string()), exp: None, nbf: None, jti: None, extra: vec![] },
    };
    let ok = JwtAuthDevice::finish_request(&Ok(token), &config());
    assert!(matches!(ok.action, Action::Continue));
    assert_eq!(ok.patch.unwrap().ops.len(), 4);
}

#[test]
fn config_is_built_from_values() {
    let c = AuthConfig::from_config_values(&values()).unwrap();
    assert_eq!(c.secret, b"test-secret-key-for-hmac-sha256!".to_vec());
    assert_eq!(c.user_id_claim, "sub");
    assert_eq!(c.public_paths, vec!["/health", "/ready", "/.well-known/openid-configuration"]);
    assert_eq!(c.clock_skew_leeway_seconds, 30);
    assert_eq!(c.revoked_jti, vec!["a", "b"]);
}

#[test]
fn config_errors_come_in_key_order() {
    let missing = ConfigValues { secret: None, ..values() };
    assert!(matches!(AuthConfig::from_config_values(&missing), Err(AuthError::Config("missing required config key: secret"))));
    let bad = ConfigValues { secret: Some("***".to_string()), ..values() };
    assert!(matches!(AuthConfig::from_config_values(&bad), Err(AuthError::Config("secret is not valid base64"))));
    let short = ConfigValues { secret: Some("c2VjcmV0".to_string()), ..values() };
    assert!(matches!(AuthConfig::from_config_values(&short), Err(AuthError::Config("secret must be at least 32 bytes"))));
    let no_issuer = ConfigValues { issuer: None, ..values() };
    assert!(matches!(AuthConfig::from_config_values(&no_issuer), Err(AuthError::Config("missing required config key: issuer"))));
    let no_audience = ConfigValues { audience: None, ..values() };
    assert!(matches!(AuthConfig::from_config_values(&no_audience), Err(AuthError::Config("missing required config key: audience"))));
    let bad_leeway = ConfigValues { clock_skew_leeway_seconds: Some("-1".to_string()), ..values() };
    assert!(matches!(AuthConfig::from_config_values(&bad_leeway), Err(AuthError::Config(_))));
}

#[test]
fn comma_lists_trim_and_keep_or_drop_empties() {
    assert_eq!(split_comma_list(" a ,,b ", true), vec!["a", "", "b"]);
    assert_eq!(split_comma_list(" a ,,b ", false), vec!["a", "b"]);
    assert_eq!(split_comma_list("", true), vec![""]);
    assert!(split_comma_list("", false).is_empty());
}

#[test]
fn messages_and_log_lines() {
    assert_eq!(AuthError::NoToken.message(), "missing or malformed authorization header");
    assert_eq!(AuthError::Config("x").message(), "authentication service misconfigured");
    assert_eq!(AuthError::Config("x").log_message(), "config error: x");
    assert_eq!(AuthError::Decode("header").log_message(), "base64 decode failed: header");
    assert_eq!(AuthError::Parse("payload").log_message(), "json parse failed: payload");
    assert_eq!(AuthError::UnsupportedAlgorithm("RS256".to_string()).log_message(), "unsupported algorithm: \"RS256\"");
    assert_eq!(AuthError::TokenRevoked.log_message(), "token has been revoked");
}

#[test]
fn a_decoded_secret_is_checked_for_length() {
    let short = AuthConfig::from_decoded_secret(&values(), Some(vec![1u8; 31]));
    assert!(matches!(short, Err(AuthError::Config("secret must be at least 32 bytes"))));
    let bad = AuthConfig::from_decoded_secret(&values(), None);
    assert!(matches!(bad, Err(AuthError::Config("secret is not valid base64"))));
    let ok = AuthConfig::from_decoded_secret(&values(), Some(vec![9u8; 32])).unwrap();
    assert_eq!(ok.secret, vec![9u8; 32]);
    assert_eq!(ok.user_id_claim, "sub");
}
