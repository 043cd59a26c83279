use snakeway::jwt::claims::{Audience, ClaimValue, JwtClaims};

fn claims(extra: Vec<(&str, ClaimValue)>) -> JwtClaims {
    JwtClaims {
        iss: Some("https://auth.example.com".to_string()),
        aud: None,
        sub: Some("user-42".to_string()),
        exp: None,
        nbf: None,
        jti: None,
        extra: extra.into_iter().map(|(k, v)| (k.to_string(), v)).collect(),
    }
}

#[test]
fn audience_single_matches() {
    let aud = Audience::Single("https://api.example.com".to_string());
    assert!(aud.contains("https://api.example.com"));
    assert!(!aud.contains("https://other.example.com"));
}

#[test]
fn audience_multiple_matches_any() {
    let aud = Audience::Multiple(vec![
        "https://api.example.com".to_string(),
        "https://admin.example.com".to_string(),
    ]);
    assert!(aud.contains("https://api.example.com"));
    assert!(aud.contains("https://admin.example.com"));
    assert!(!aud.contains("https://other.example.com"));
}

#[test]
fn get_claim_sub() {
    assert_eq!(claims(vec![]).get_claim("sub"), Some("user-42".to_string()));
}

#[test]
fn get_claim_iss() {
    assert_eq!(claims(vec![]).get_claim("iss"), Some("https://auth.example.com".to_string()));
}

#[test]
fn get_claim_extra_string() {
    let c = claims(vec![("tenant_id", ClaimValue::Str("acme-corp".to_string()))]);
    assert_eq!(c.get_claim("tenant_id"), Some("acme-corp".to_string()));
}

#[test]
fn get_claim_extra_number() {
    let c = claims(vec![("org_id", ClaimValue::Number("99".to_string()))]);
    assert_eq!(c.get_claim("org_id"), Some("99".to_string()));
}

#[test]
fn get_claim_extra_bool() {
    let c = claims(vec![("admin", ClaimValue::Bool(true))]);
    assert_eq!(c.get_claim("admin"), Some("true".to_string()));
}

#[test]
fn get_claim_missing_returns_none() {
    let c = JwtClaims { iss: None, aud: None, sub: None, exp: None, nbf: None, jti: None, extra: vec![] };
    assert_eq!(c.get_claim("sub"), None);
    assert_eq!(c.get_claim("nonexistent"), None);
}

#[test]
fn get_claim_array_value_returns_none() {
    let c = claims(vec![("roles", ClaimValue::Other)]);
    assert_eq!(c.get_claim("roles"), None);
}

#[test]
fn empty_audience_list_matches_nothing() {
    assert!(!Audience::Multiple(vec![]).contains(""));
}

#[test]
fn false_claim_has_text_false() {
    let c = claims(vec![("admin", ClaimValue::Bool(false))]);
    assert_eq!(c.get_claim("admin"), Some("false".to_string()));
}
