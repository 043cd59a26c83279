use base64::Engine;
use base64::prelude::BASE64_URL_SAFE_NO_PAD;
use hmac::{Hmac, Mac};
use sha2::Sha256;
use snakeway::jwt::claims::{Audience, ClaimValue, JwtClaims, JwtHeader, ValidatedToken};
use snakeway::jwt::config::AuthConfig;
use snakeway::jwt::error::AuthError;
use snakeway::jwt::token::{
    begin_validation, check_claims, check_header_and_signature, header_stage, is_safe_header_value,
    normalize_typ, parse_leeway_seconds, parse_u64, split_token, validate_secret, MIN_SECRET_BYTES,
};

const SECRET: &[u8] = b"test-secret-key-for-hmac-sha256!";
const ISSUER: &str = "https://auth.example.com";
const AUDIENCE: &str = "https://api.example.com";

fn test_config() -> AuthConfig {
    AuthConfig {
        secret: SECRET.to_vec(),
        issuer: ISSUER.to_string(),
        audience: AUDIENCE.to_string(),
        user_id_claim: "sub".to_string(),
        tenant_id_claim: None,
        public_paths: vec![],
        token_type: None,
        clock_skew_leeway_seconds: 0,
        revoked_jti: Vec::new(),
    }
}

fn encode_jwt(header_json: &str, payload_json: &str, secret: &[u8]) -> String {
    let header_b64 = BASE64_URL_SAFE_NO_PAD.encode(header_json.as_bytes());
    let payload_b64 = BASE64_URL_SAFE_NO_PAD.encode(payload_json.as_bytes());
    let signing_input = format!("{header_b64}.{payload_b64}");
    let mut mac = <Hmac<Sha256> as Mac>::new_from_slice(secret).unwrap();
    mac.update(signing_input.as_bytes());
    let signature = mac.finalize().into_bytes();
    let sig_b64 = BASE64_URL_SAFE_NO_PAD.encode(signature);
    format!("{header_b64}.{payload_b64}.{sig_b64}")
}

fn opt_string(v: &serde_json::Value, key: &str) -> Result<Option<String>, ()> {
    match v.get(key) {
        None | Some(serde_json::Value::Null) => Ok(None),
        Some(serde_json::Value::String(s)) => Ok(Some(s.clone())),
        Some(_) => Err(()),
    }
}

fn opt_u64(v: &serde_json::Value, key: &str) -> Result<Option<u64>, ()> {
    match v.get(key) {
        None | Some(serde_json::Value::Null) => Ok(None),
        Some(n) => n.as_u64().map(Some).ok_or(()),
    }
}

/// The header JSON as the JOSE header type, `None` when it does not fit.
fn parse_header(bytes: &[u8]) -> Option<JwtHeader> {
    let v: serde_json::Value = serde_json::from_slice(bytes).ok()?;
    let alg = match v.get("alg") {
        Some(serde_json::Value::String(s)) => s.clone(),
        _ => return None,
    };
    let typ = opt_string(&v, "typ").ok()?;
    Some(JwtHeader { alg, typ })
}

/// The payload JSON as the claim set, `None` when it does not fit.
fn parse_claims(bytes: &[u8]) -> Option<JwtClaims> {
    let v: serde_json::Value = serde_json::from_slice(bytes).ok()?;
    let obj = v.as_object()?;
    let aud = match obj.get("aud") {
        None | Some(serde_json::Value::Null) => None,
        Some(serde_json::Value::String(s)) => Some(Audience::Single(s.clone())),
        Some(serde_json::Value::Array(items)) => {
            let mut out = Vec::new();
            for item in items {
                out.push(item.as_str()?.to_string());
            }
            Some(Audience::Multiple(out))
        }
        Some(_) => return None,
    };
    let named = ["iss", "aud", "sub", "exp", "nbf", "jti"];
    let mut extra = Vec::new();
    for (k, val) in obj {
        if named.contains(&k.as_str()) {
            continue;
        }
        let c = match val {
            serde_json::Value::String(s) => ClaimValue::Str(s.clone()),
            serde_json::Value::Number(n) => ClaimValue::Number(n.to_string()),
            serde_json::Value::Bool(b) => ClaimValue::Bool(*b),
            _ => ClaimValue::Other,
        };
        extra.push((k.clone(), c));
    }
    Some(JwtClaims {
        iss: opt_string(&v, "iss").ok()?,
        aud,
        sub: opt_string(&v, "sub").ok()?,
        exp: opt_u64(&v, "exp").ok()?,
        nbf: opt_u64(&v, "nbf").ok()?,
        jti: opt_string(&v, "jti").ok()?,
        extra,
    })
}

fn validate_token(raw: &str, config: &AuthConfig, now: u64) -> Result<ValidatedToken, AuthError> {
    let stage = begin_validation(raw, now)?;
    let header = parse_header(&stage.header_bytes);
    let payload = check_header_and_signature(&stage, header, config)?;
    check_claims(parse_claims(&payload), config, now)
}

fn valid_header() -> String {
    r#"{"alg":"HS256","typ":"JWT"}"#.to_string()
}

fn valid_payload(exp: u64) -> String {
    format!(r#"{{"sub":"user-42","iss":"{ISSUER}","aud":"{AUDIENCE}","exp":{exp}}}"#)
}

#[test]
fn valid_token_succeeds() {
    let token = encode_jwt(&valid_header(), &valid_payload(2000), SECRET);
    let result = validate_token(&token, &test_config(), 1000);
    assert!(result.is_ok());
    assert_eq!(result.unwrap().claims.get_claim("sub"), Some("user-42".to_string()));
}

#[test]
fn token_without_exp_is_rejected() {
    let payload = format!(r#"{{"sub":"user-1","iss":"{ISSUER}","aud":"{AUDIENCE}"}}"#);
    let token = encode_jwt(&valid_header(), &payload, SECRET);
    let result = validate_token(&token, &test_config(), 999_999_999);
    assert!(matches!(result, Err(AuthError::MissingExpiry)));
}

#[test]
fn expired_token_rejected() {
    let token = encode_jwt(&valid_header(), &valid_payload(1000), SECRET);
    assert!(matches!(validate_token(&token, &test_config(), 1000), Err(AuthError::TokenExpired)));
}

#[test]
fn token_just_before_expiry_succeeds() {
    let token = encode_jwt(&valid_header(), &valid_payload(1000), SECRET);
    assert!(validate_token(&token, &test_config(), 999).is_ok());
}

#[test]
fn not_yet_valid_token_rejected() {
    let payload = format!(r#"{{"sub":"user-1","iss":"{ISSUER}","aud":"{AUDIENCE}","exp":3000,"nbf":2000}}"#);
    let token = encode_jwt(&valid_header(), &payload, SECRET);
    assert!(matches!(validate_token(&token, &test_config(), 1999), Err(AuthError::TokenNotYetValid)));
}

#[test]
fn token_at_nbf_boundary_succeeds() {
    let payload = format!(r#"{{"sub":"user-1","iss":"{ISSUER}","aud":"{AUDIENCE}","exp":3000,"nbf":2000}}"#);
    let token = encode_jwt(&valid_header(), &payload, SECRET);
    assert!(validate_token(&token, &test_config(), 2000).is_ok());
}

#[test]
fn token_missing_user_id_claim_is_rejected() {
    let payload = format!(r#"{{"iss":"{ISSUER}","aud":"{AUDIENCE}","exp":2000}}"#);
    let token = encode_jwt(&valid_header(), &payload, SECRET);
    assert!(matches!(validate_token(&token, &test_config(), 1000), Err(AuthError::MissingUserId)));
}

#[test]
fn token_with_non_scalar_user_id_claim_is_rejected() {
    let payload = format!(r#"{{"sub":"u","groups":["a","b"],"iss":"{ISSUER}","aud":"{AUDIENCE}","exp":2000}}"#);
    let token = encode_jwt(&valid_header(), &payload, SECRET);
    let config = AuthConfig { user_id_claim: "groups".to_string(), ..test_config() };
    assert!(matches!(validate_token(&token, &config, 1000), Err(AuthError::MissingUserId)));
}

#[test]
fn wrong_secret_rejected() {
    let token = encode_jwt(&valid_header(), &valid_payload(2000), b"wrong-secret-key!!!!!!!!!!!!!!!");
    assert!(matches!(validate_token(&token, &test_config(), 1000), Err(AuthError::BadSignature)));
}

#[test]
fn tampered_payload_rejected() {
    let token = encode_jwt(&valid_header(), &valid_payload(2000), SECRET);
    let parts: Vec<&str> = token.splitn(3, '.').collect();
    let tampered_payload = BASE64_URL_SAFE_NO_PAD
        .encode(format!(r#"{{"sub":"admin","iss":"{ISSUER}","aud":"{AUDIENCE}","exp":2000}}"#).as_bytes());
    let tampered_token = format!("{}.{}.{}", parts[0], tampered_payload, parts[2]);
    assert!(matches!(validate_token(&tampered_token, &test_config(), 1000), Err(AuthError::BadSignature)));
}

#[test]
fn wrong_issuer_rejected() {
    let payload = format!(r#"{{"sub":"user-1","iss":"https://evil.com","aud":"{AUDIENCE}","exp":2000}}"#);
    let token = encode_jwt(&valid_header(), &payload, SECRET);
    assert!(matches!(validate_token(&token, &test_config(), 1000), Err(AuthError::IssuerMismatch)));
}

#[test]
fn missing_issuer_rejected() {
    let payload = format!(r#"{{"sub":"user-1","aud":"{AUDIENCE}","exp":2000}}"#);
    let token = encode_jwt(&valid_header(), &payload, SECRET);
    assert!(matches!(validate_token(&token, &test_config(), 1000), Err(AuthError::IssuerMismatch)));
}

#[test]
fn wrong_audience_rejected() {
    let payload = format!(r#"{{"sub":"user-1","iss":"{ISSUER}","aud":"https://other.com","exp":2000}}"#);
    let token = encode_jwt(&valid_header(), &payload, SECRET);
    assert!(matches!(validate_token(&token, &test_config(), 1000), Err(AuthError::AudienceMismatch)));
}

#[test]
fn missing_audience_rejected() {
    let payload = format!(r#"{{"sub":"user-1","iss":"{ISSUER}","exp":2000}}"#);
    let token = encode_jwt(&valid_header(), &payload, SECRET);
    assert!(matches!(validate_token(&token, &test_config(), 1000), Err(AuthError::AudienceMismatch)));
}

#[test]
fn audience_array_matching() {
    let payload = format!(r#"{{"sub":"user-1","iss":"{ISSUER}","aud":["{AUDIENCE}","https://other.com"],"exp":2000}}"#);
    let token = encode_jwt(&valid_header(), &payload, SECRET);
    assert!(validate_token(&token, &test_config(), 1000).is_ok());
}

#[test]
fn unsupported_algorithm_rejected() {
    let header = r#"{"alg":"RS256","typ":"JWT"}"#;
    let token = encode_jwt(header, &valid_payload(2000), SECRET);
    let result = validate_token(&token, &test_config(), 1000);
    assert!(matches!(result, Err(AuthError::UnsupportedAlgorithm(ref alg)) if alg == "RS256"));
}

#[test]
fn malformed_token_no_dots() {
    assert!(matches!(validate_token("not-a-jwt", &test_config(), 1000), Err(AuthError::MalformedToken)));
}

#[test]
fn malformed_token_one_dot() {
    assert!(matches!(validate_token("header.payload", &test_config(), 1000), Err(AuthError::MalformedToken)));
}

#[test]
fn invalid_base64_header() {
    assert!(matches!(validate_token("!!!.payload.signature", &test_config(), 1000), Err(AuthError::Decode("header"))));
}

#[test]
fn invalid_json_header() {
    let bad_header = BASE64_URL_SAFE_NO_PAD.encode(b"not json");
    let token = format!("{bad_header}.payload.signature");
    assert!(matches!(validate_token(&token, &test_config(), 1000), Err(AuthError::Parse("header"))));
}

#[test]
fn auth_errors_return_401() {
    let variants = [
        AuthError::NoToken,
        AuthError::MalformedToken,
        AuthError::BadSignature,
        AuthError::TokenExpired,
        AuthError::MissingExpiry,
        AuthError::MissingUserId,
        AuthError::IssuerMismatch,
        AuthError::AudienceMismatch,
    ];
    let statuses: Vec<u16> = variants.iter().map(|e| e.status()).collect();
    assert!(statuses.iter().all(|&s| s == 401));
}

#[test]
fn config_error_returns_500() {
    let err = AuthError::Config("test");
    assert_eq!(err.status(), 500);
}

#[test]
fn secret_below_minimum_length_is_rejected() {
    let secret = vec![0u8; MIN_SECRET_BYTES - 1];
    assert!(matches!(validate_secret(&secret), Err(AuthError::Config(_))));
}

#[test]
fn empty_secret_is_rejected() {
    let secret: Vec<u8> = Vec::new();
    assert!(matches!(validate_secret(&secret), Err(AuthError::Config(_))));
}

#[test]
fn secret_at_minimum_length_is_accepted() {
    let secret = vec![0u8; MIN_SECRET_BYTES];
    assert!(validate_secret(&secret).is_ok());
}

#[test]
fn zero_clock_is_rejected() {
    let token = encode_jwt(&valid_header(), &valid_payload(2000), SECRET);
    assert!(matches!(validate_token(&token, &test_config(), 0), Err(AuthError::Config(_))));
}

#[test]
fn unsupported_algorithm_log_message_escapes_control_chars() {
    let err = AuthError::UnsupportedAlgorithm("HS256\ninjected log line".to_string());
    let msg = err.log_message();
    assert!(!msg.contains('\n'));
    assert!(msg.contains("\\n"));
}

#[test]
fn typ_not_checked_when_token_type_unset() {
    let header = r#"{"alg":"HS256","typ":"unexpected-type"}"#;
    let token = encode_jwt(header, &valid_payload(2000), SECRET);
    assert!(validate_token(&token, &test_config(), 1000).is_ok());
}

#[test]
fn matching_token_type_is_accepted() {
    let header = r#"{"alg":"HS256","typ":"at+jwt"}"#;
    let token = encode_jwt(header, &valid_payload(2000), SECRET);
    let config = AuthConfig { token_type: Some("at+jwt".to_string()), ..test_config() };
    assert!(validate_token(&token, &config, 1000).is_ok());
}

#[test]
fn token_type_match_is_case_insensitive_and_ignores_media_prefix() {
    let header = r#"{"alg":"HS256","typ":"application/AT+JWT"}"#;
    let token = encode_jwt(header, &valid_payload(2000), SECRET);
    let config = AuthConfig { token_type: Some("at+jwt".to_string()), ..test_config() };
    assert!(validate_token(&token, &config, 1000).is_ok());
}

#[test]
fn mismatched_token_type_is_rejected() {
    let header = r#"{"alg":"HS256","typ":"JWT"}"#;
    let token = encode_jwt(header, &valid_payload(2000), SECRET);
    let config = AuthConfig { token_type: Some("at+jwt".to_string()), ..test_config() };
    assert!(matches!(validate_token(&token, &config, 1000), Err(AuthError::TypeMismatch)));
}

#[test]
fn missing_typ_is_rejected_when_token_type_configured() {
    let header = r#"{"alg":"HS256"}"#;
    let token = encode_jwt(header, &valid_payload(2000), SECRET);
    let config = AuthConfig { token_type: Some("JWT".to_string()), ..test_config() };
    assert!(matches!(validate_token(&token, &config, 1000), Err(AuthError::TypeMismatch)));
}

#[test]
fn leeway_accepts_recently_expired_token() {
    let token = encode_jwt(&valid_header(), &valid_payload(1000), SECRET);
    let config = AuthConfig { clock_skew_leeway_seconds: 60, ..test_config() };
    assert!(validate_token(&token, &config, 1030).is_ok());
}

#[test]
fn leeway_rejects_token_expired_beyond_window() {
    let token = encode_jwt(&valid_header(), &valid_payload(1000), SECRET);
    let config = AuthConfig { clock_skew_leeway_seconds: 60, ..test_config() };
    assert!(matches!(validate_token(&token, &config, 1061), Err(AuthError::TokenExpired)));
}

#[test]
fn leeway_accepts_not_yet_valid_token_within_window() {
    let payload = format!(r#"{{"sub":"user-1","iss":"{ISSUER}","aud":"{AUDIENCE}","exp":3000,"nbf":2000}}"#);
    let token = encode_jwt(&valid_header(), &payload, SECRET);
    let config = AuthConfig { clock_skew_leeway_seconds: 60, ..test_config() };
    assert!(validate_token(&token, &config, 1950).is_ok());
}

#[test]
fn parse_leeway_absent_defaults_to_zero() {
    assert_eq!(parse_leeway_seconds(None).unwrap(), 0);
}

#[test]
fn parse_leeway_valid_number_is_parsed() {
    assert_eq!(parse_leeway_seconds(Some("60")).unwrap(), 60);
}

#[test]
fn parse_leeway_non_numeric_is_rejected() {
    assert!(matches!(parse_leeway_seconds(Some("soon")), Err(AuthError::Config(_))));
}

#[test]
fn revoked_token_is_rejected() {
    let payload = format!(r#"{{"sub":"user-1","iss":"{ISSUER}","aud":"{AUDIENCE}","exp":2000,"jti":"revoked-1"}}"#);
    let token = encode_jwt(&valid_header(), &payload, SECRET);
    let config = AuthConfig { revoked_jti: vec!["revoked-1".to_string()], ..test_config() };
    assert!(matches!(validate_token(&token, &config, 1000), Err(AuthError::TokenRevoked)));
}

#[test]
fn non_revoked_token_is_accepted() {
    let payload = format!(r#"{{"sub":"user-1","iss":"{ISSUER}","aud":"{AUDIENCE}","exp":2000,"jti":"allowed-1"}}"#);
    let token = encode_jwt(&valid_header(), &payload, SECRET);
    let config = AuthConfig { revoked_jti: vec!["revoked-1".to_string()], ..test_config() };
    assert!(validate_token(&token, &config, 1000).is_ok());
}

#[test]
fn missing_jti_rejected_when_revocation_enabled() {
    let token = encode_jwt(&valid_header(), &valid_payload(2000), SECRET);
    let config = AuthConfig { revoked_jti: vec!["revoked-1".to_string()], ..test_config() };
    assert!(matches!(validate_token(&token, &config, 1000), Err(AuthError::MissingJti)));
}

#[test]
fn jti_not_required_when_revocation_disabled() {
    let token = encode_jwt(&valid_header(), &valid_payload(2000), SECRET);
    assert!(validate_token(&token, &test_config(), 1000).is_ok());
}

#[test]
fn user_id_with_control_char_is_rejected() {
    let payload = format!(r#"{{"sub":"user\n42","iss":"{ISSUER}","aud":"{AUDIENCE}","exp":2000}}"#);
    let token = encode_jwt(&valid_header(), &payload, SECRET);
    assert!(matches!(validate_token(&token, &test_config(), 1000), Err(AuthError::InvalidClaimValue)));
}

#[test]
fn empty_user_id_is_rejected() {
    let payload = format!(r#"{{"sub":"","iss":"{ISSUER}","aud":"{AUDIENCE}","exp":2000}}"#);
    let token = encode_jwt(&valid_header(), &payload, SECRET);
    assert!(matches!(validate_token(&token, &test_config(), 1000), Err(AuthError::InvalidClaimValue)));
}

#[test]
fn tenant_id_with_control_char_is_rejected() {
    let payload = format!(r#"{{"sub":"user-1","tenant_id":"acme\r\nx","iss":"{ISSUER}","aud":"{AUDIENCE}","exp":2000}}"#);
    let token = encode_jwt(&valid_header(), &payload, SECRET);
    let config = AuthConfig { tenant_id_claim: Some("tenant_id".to_string()), ..test_config() };
    assert!(matches!(validate_token(&token, &config, 1000), Err(AuthError::InvalidClaimValue)));
}

#[test]
fn is_safe_header_value_accepts_normal_and_rejects_control_and_empty() {
    assert!(is_safe_header_value("user-42"));
    assert!(!is_safe_header_value(""));
    assert!(!is_safe_header_value("a\nb"));
}

#[test]
fn typ_normalization_drops_media_prefix_and_case() {
    assert_eq!(normalize_typ("application/AT+JWT"), "at+jwt");
    assert_eq!(normalize_typ("JWT"), "jwt");
    assert_eq!(normalize_typ("Application/"), "");
    assert_eq!(normalize_typ("applicatio"), "applicatio");
}

#[test]
fn u64_parsing_follows_std() {
    for s in ["0", "+7", "18446744073709551615", "007"] {
        assert_eq!(parse_u64(s), s.parse::<u64>().ok());
    }
    for s in ["", "+", "-1", "18446744073709551616", "1 ", "0x10"] {
        assert_eq!(parse_u64(s), None);
    }
    assert_eq!(parse_leeway_seconds(Some("  42\t")).unwrap(), 42);
}

#[test]
fn token_splits_into_three_parts_at_the_first_two_dots() {
    let p = split_token("a.b.c.d").unwrap();
    assert_eq!(p.header_b64, "a");
    assert_eq!(p.payload_b64, "b");
    assert_eq!(p.signature_b64, "c.d");
    assert!(split_token("a.b").is_none());
    let e = split_token("..").unwrap();
    assert_eq!((e.header_b64.as_str(), e.payload_b64.as_str(), e.signature_b64.as_str()), ("", "", ""));
}

#[test]
fn unparsable_payload_is_a_parse_error() {
    assert!(matches!(check_claims(None, &test_config(), 1000), Err(AuthError::Parse("payload"))));
}

#[test]
fn stage_one_decodes_the_header_bytes() {
    let token = encode_jwt(&valid_header(), &valid_payload(2000), SECRET);
    let stage = begin_validation(&token, 1000).unwrap();
    assert_eq!(stage.header_bytes, valid_header().into_bytes());
}

#[test]
fn the_header_stage_needs_decoded_header_bytes() {
    let parts = split_token("a.b.c").unwrap();
    assert!(matches!(header_stage(parts.clone(), None), Err(AuthError::Decode("header"))));
    let st = header_stage(parts, Some(b"{}".to_vec())).unwrap();
    assert_eq!(st.header_bytes, b"{}".to_vec());
    assert_eq!(st.parts.header_b64, "a");
}
