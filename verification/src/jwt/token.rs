//! Token checks: the secret length rule, the leeway setting, header-value
//! safety, `typ` comparison, and the three stages of validation.
use vstd::prelude::*;
use crate::text::{
    str_chars, str_eq, trim_str, trim_spec, is_control, is_control_char, ascii_lower_seq,
    chars_eq_ignore_ascii_case, eq_ignore_ascii_case_spec, string_from_range,
    to_ascii_lowercase,
};
use crate::jwt::error::AuthError;
use crate::text::concat;
use crate::jwt::claims::{JwtHeader, JwtClaims, ValidatedToken, audience_contains_spec, claim_text};
use crate::jwt::config::AuthConfig;
use crate::jwt::crypto::{base64url_decode, base64url_nopad_decoded, hmac_sha256, hmac_sha256_verify};
use crate::normalization::query::{split_once_spec, lemma_split_once_at};
use vstd::utf8::encode_utf8;

verus! {

/// Minimum HS256 secret length in bytes: the size of an HMAC-SHA256 output.
pub const MIN_SECRET_BYTES: usize = 32;

/// Accepts a secret of at least [`MIN_SECRET_BYTES`] bytes; a shorter one
/// (the empty one included) is a configuration error.
pub fn validate_secret(secret: &[u8]) -> (r: Result<(), AuthError>)
    ensures
        secret@.len() >= MIN_SECRET_BYTES ==> r == Ok::<(), AuthError>(()),
        secret@.len() < MIN_SECRET_BYTES ==> r == Err::<(), AuthError>(
            AuthError::Config("secret must be at least 32 bytes"),
        ),
{
    if secret.len() < MIN_SECRET_BYTES {
        return Err(AuthError::Config("secret must be at least 32 bytes"));
    }
    Ok(())
}

pub open spec fn is_ascii_digit(c: char) -> bool {
    '0' <= c <= '9'
}

/// The value of a string of decimal digits.
pub open spec fn decimal_value(d: Seq<char>) -> int
    decreases d.len(),
{
    if d.len() == 0 {
        0
    } else {
        decimal_value(d.drop_last()) * 10 + (d.last() as int - '0' as int)
    }
}

pub open spec fn all_digits(d: Seq<char>) -> bool {
    forall|i: int| 0 <= i < d.len() ==> is_ascii_digit(#[trigger] d[i])
}

/// The digits of a `u64` literal: an optional leading `+` is dropped.
pub open spec fn u64_digits(s: Seq<char>) -> Seq<char> {
    if s.len() > 0 && s[0] == '+' {
        s.drop_first()
    } else {
        s
    }
}

/// `str::parse::<u64>`: an optional `+`, then one or more ASCII digits whose
/// value fits in a `u64`.
pub open spec fn parse_u64_spec(s: Seq<char>) -> Option<u64> {
    let d = u64_digits(s);
    if d.len() > 0 && all_digits(d) && decimal_value(d) <= u64::MAX {
        Some(decimal_value(d) as u64)
    } else {
        None
    }
}

pub proof fn lemma_decimal_value_nonneg(d: Seq<char>)
    requires
        all_digits(d),
    ensures
        decimal_value(d) >= 0,
    decreases d.len(),
{
    if d.len() > 0 {
        assert(is_ascii_digit(d[d.len() - 1]));
        lemma_decimal_value_nonneg(d.drop_last());
    }
}

/// A prefix of a digit string is worth no more than the whole string.
pub proof fn lemma_decimal_value_prefix(d: Seq<char>, k: int)
    requires
        all_digits(d),
        0 <= k <= d.len(),
    ensures
        decimal_value(d.take(k)) <= decimal_value(d),
    decreases d.len(),
{
    if k < d.len() {
        let e = d.drop_last();
        assert(all_digits(e)) by {
            assert forall|i: int| 0 <= i < e.len() implies is_ascii_digit(#[trigger] e[i]) by {
                assert(e[i] == d[i]);
            }
        }
        lemma_decimal_value_prefix(e, k);
        assert(e.take(k) =~= d.take(k));
        lemma_decimal_value_nonneg(e);
        assert(is_ascii_digit(d[d.len() - 1]));
    } else {
        assert(d.take(k) =~= d);
    }
}

/// Executable `str::parse::<u64>`.
pub fn parse_u64(s: &str) -> (r: Option<u64>)
    ensures
        r == parse_u64_spec(s@),
{
    let v = str_chars(s);
    let mut start: usize = 0;
    if v.len() > 0 && v[0] == '+' {
        start = 1;
    }
    let ghost d = u64_digits(s@);
    assert(d =~= v@.skip(start as int));
    if start == v.len() {
        return None;
    }
    let mut i: usize = start;
    let mut acc: u64 = 0;
    assert(v@.subrange(start as int, start as int) =~= Seq::<char>::empty());
    while i < v.len()
        invariant
            start <= i <= v.len(),
            d == u64_digits(s@),
            d == v@.skip(start as int),
            d.len() > 0,
            all_digits(v@.subrange(start as int, i as int)),
            acc as int == decimal_value(v@.subrange(start as int, i as int)),
        decreases v.len() - i,
    {
        let c = v[i];
        let ghost k = (i - start) as int;
        assert(v@.subrange(start as int, i as int) =~= d.take(k));
        assert(v@.subrange(start as int, i + 1) =~= d.take(k + 1));
        assert(d[k] == c);
        if !('0' <= c && c <= '9') {
            assert(!all_digits(d));
            return None;
        }
        let digit: u64 = ((c as u32) - ('0' as u32)) as u64;
        assert(d.take(k + 1).drop_last() =~= d.take(k));
        assert(decimal_value(d.take(k + 1)) == decimal_value(d.take(k)) * 10 + digit);
        let next = match acc.checked_mul(10) {
            Some(m) => m.checked_add(digit),
            None => None,
        };
        match next {
            Some(n) => {
                acc = n;
            },
            None => {
                proof {
                    if all_digits(d) {
                        lemma_decimal_value_prefix(d, k + 1);
                    }
                }
                return None;
            },
        }
        i = i + 1;
    }
    assert(v@.subrange(start as int, v.len() as int) =~= d);
    Some(acc)
}

/// The leeway a configuration value gives: absent is zero; otherwise the
/// trimmed text must be a non-negative integer that fits in a `u64`.
pub fn parse_leeway_seconds(raw: Option<&str>) -> (r: Result<u64, AuthError>)
    ensures
        raw is None ==> r == Ok::<u64, AuthError>(0),
        raw matches Some(s) ==> (match parse_u64_spec(trim_spec(s@)) {
            Some(v) => r == Ok::<u64, AuthError>(v),
            None => r == Err::<u64, AuthError>(
                AuthError::Config("clock_skew_leeway_seconds must be a non-negative integer"),
            ),
        }),
{
    match raw {
        Some(s) => {
            let t = trim_str(s);
            match parse_u64(t.as_str()) {
                Some(v) => Ok(v),
                None => Err(
                    AuthError::Config("clock_skew_leeway_seconds must be a non-negative integer"),
                ),
            }
        },
        None => Ok(0),
    }
}

/// A value that can stand in an upstream header: not empty, and free of
/// control characters.
pub open spec fn safe_header_value(s: Seq<char>) -> bool {
    s.len() > 0 && forall|i: int| 0 <= i < s.len() ==> !is_control_char(#[trigger] s[i])
}

/// Whether a claim value may be asserted to the upstream as a header.
pub fn is_safe_header_value(value: &str) -> (r: bool)
    ensures
        r == safe_header_value(value@),
{
    let v = str_chars(value);
    if v.len() == 0 {
        return false;
    }
    let mut i: usize = 0;
    while i < v.len()
        invariant
            i <= v.len(),
            v@ == value@,
            forall|j: int| 0 <= j < i ==> !is_control_char(#[trigger] v@[j]),
        decreases v.len() - i,
    {
        if is_control(v[i]) {
            return false;
        }
        i = i + 1;
    }
    true
}

/// The comparison key of a `typ` value: an `application/` prefix, in any
/// ASCII case, is dropped, and the rest is lowercased.
pub open spec fn typ_key(v: Seq<char>) -> Seq<char> {
    if v.len() >= 12 && eq_ignore_ascii_case_spec(v.take(12), "application/"@) {
        ascii_lower_seq(v.skip(12))
    } else {
        ascii_lower_seq(v)
    }
}

/// Normalizes a `typ` value for comparison (case-insensitive, media-type
/// prefix optional).
pub fn normalize_typ(value: &str) -> (r: String)
    ensures
        r@ == typ_key(value@),
{
    let v = str_chars(value);
    if v.len() >= 12 {
        let head = vec_prefix(&v, 12);
        let prefix = str_chars("application/");
        if chars_eq_ignore_ascii_case(&head, &prefix) {
            let rest = string_from_range(&v, 12, v.len());
            return to_ascii_lowercase(rest.as_str());
        }
    }
    to_ascii_lowercase(value)
}

fn vec_prefix(v: &Vec<char>, n: usize) -> (r: Vec<char>)
    requires
        n <= v.len(),
    ensures
        r@ == v@.take(n as int),
{
    let mut r: Vec<char> = Vec::new();
    let mut i: usize = 0;
    while i < n
        invariant
            i <= n <= v.len(),
            r@ == v@.take(i as int),
        decreases n - i,
    {
        r.push(v[i]);
        i = i + 1;
        assert(r@ =~= v@.take(i as int));
    }
    r
}

} // verus!

verus! {

/// The three parts of a compact token as `splitn(3, '.')` gives them: up to
/// the first dot, up to the second dot, and the rest (dots included).
pub open spec fn token_parts_spec(s: Seq<char>) -> Option<(Seq<char>, Seq<char>, Seq<char>)> {
    match split_once_spec(s, '.') {
        None => None,
        Some((a, rest)) => match split_once_spec(rest, '.') {
            None => None,
            Some((b, c)) => Some((a, b, c)),
        },
    }
}

/// The base64url parts of a compact token.
#[derive(Debug, Clone)]
pub struct TokenParts {
    pub header_b64: String,
    pub payload_b64: String,
    pub signature_b64: String,
}

pub open spec fn parts_view(p: TokenParts) -> (Seq<char>, Seq<char>, Seq<char>) {
    (p.header_b64@, p.payload_b64@, p.signature_b64@)
}

/// The first index of `c` at or after `from`, or the length.
fn find_char(v: &Vec<char>, from: usize, c: char) -> (j: usize)
    requires
        from <= v.len(),
    ensures
        from <= j <= v.len(),
        forall|k: int| from <= k < j ==> #[trigger] v@[k] != c,
        j < v.len() ==> v@[j as int] == c,
{
    let mut j = from;
    while j < v.len() && v[j] != c
        invariant
            from <= j <= v.len(),
            forall|k: int| from <= k < j ==> #[trigger] v@[k] != c,
        decreases v.len() - j,
    {
        j = j + 1;
    }
    j
}

/// Splits a compact token into its three parts; `None` when it has fewer
/// than two dots.
pub fn split_token(raw: &str) -> (r: Option<TokenParts>)
    ensures
        match token_parts_spec(raw@) {
            None => r is None,
            Some(t) => r matches Some(p) && parts_view(p) == t,
        },
{
    let v = str_chars(raw);
    let i = find_char(&v, 0, '.');
    proof {
        lemma_split_once_at(v@, '.', i as int);
    }
    if i == v.len() {
        return None;
    }
    let j = find_char(&v, i + 1, '.');
    let ghost rest = v@.skip(i + 1);
    proof {
        assert forall|k: int| 0 <= k < j - (i + 1) implies #[trigger] rest[k] != '.' by {
            assert(rest[k] == v@[k + i + 1]);
        }
        if j < v.len() {
            assert(rest[j - (i + 1)] == v@[j as int]);
        }
        lemma_split_once_at(rest, '.', j - (i + 1));
    }
    if j == v.len() {
        return None;
    }
    let a = string_from_range(&v, 0, i);
    let b = string_from_range(&v, i + 1, j);
    let c = string_from_range(&v, j + 1, v.len());
    proof {
        assert(v@.subrange(0, i as int) =~= v@.take(i as int));
        assert(v@.subrange(i + 1, j as int) =~= rest.take(j - (i + 1)));
        assert(v@.subrange(j + 1, v.len() as int) =~= rest.skip(j - (i + 1) + 1));
    }
    Some(TokenParts { header_b64: a, payload_b64: b, signature_b64: c })
}

/// A token past its first stage: split, with its header decoded.
#[derive(Debug, Clone)]
pub struct HeaderStage {
    pub parts: TokenParts,
    pub header_bytes: Vec<u8>,
}

/// How the first stage ends: the error, or the parts and header bytes.
pub open spec fn first_stage_spec(raw: Seq<char>, now: u64) -> Result<((Seq<char>, Seq<char>, Seq<char>), Seq<u8>), AuthError> {
    if now == 0 {
        Err(AuthError::Config("host clock unavailable"))
    } else {
        match token_parts_spec(raw) {
            None => Err(AuthError::MalformedToken),
            Some(t) => match base64url_nopad_decoded(encode_utf8(t.0)) {
                None => Err(AuthError::Decode("header")),
                Some(h) => Ok((t, h)),
            },
        }
    }
}

/// First stage of validation: a zero clock (the host could not read the
/// time) fails closed; then the token is split in three and its header
/// decoded from base64url. The caller parses the header bytes as JSON.
pub fn begin_validation(raw_token: &str, now: u64) -> (r: Result<HeaderStage, AuthError>)
    ensures
        match first_stage_spec(raw_token@, now) {
            Err(e) => r == Err::<HeaderStage, AuthError>(e),
            Ok((t, h)) => r matches Ok(st) && parts_view(st.parts) == t && st.header_bytes@ == h,
        },
{
    if now == 0 {
        return Err(AuthError::Config("host clock unavailable"));
    }
    let parts = match split_token(raw_token) {
        Some(p) => p,
        None => return Err(AuthError::MalformedToken),
    };
    let decoded = base64url_decode(parts.header_b64.as_str());
    header_stage(parts, decoded)
}

/// The end of the first stage once the header is base64url-decoded
/// (`None` when it does not decode): a header that does not decode is a
/// `Decode("header")` error; otherwise the parts go on with the header
/// bytes.
pub fn header_stage(parts: TokenParts, decoded_header: Option<Vec<u8>>) -> (r: Result<HeaderStage, AuthError>)
    ensures
        match decoded_header {
            None => r == Err::<HeaderStage, AuthError>(AuthError::Decode("header")),
            Some(h) => r matches Ok(st) && st.parts == parts && st.header_bytes@ == h@,
        },
{
    match decoded_header {
        Some(header_bytes) => Ok(HeaderStage { parts, header_bytes }),
        None => Err(AuthError::Decode("header")),
    }
}

/// The bytes the signature covers: `header.payload`.
pub open spec fn signing_input(t: (Seq<char>, Seq<char>, Seq<char>)) -> Seq<u8> {
    encode_utf8(t.0 + "."@ + t.1)
}

/// Whether the header's `typ` passes the configured token type.
pub open spec fn typ_accepted(h: JwtHeader, expected: Option<String>) -> bool {
    match expected {
        None => true,
        Some(e) => h.typ matches Some(t) && typ_key(t@) == typ_key(e@),
    }
}

/// How the second stage ends: the error, or the payload bytes.
pub open spec fn second_stage_spec(t: (Seq<char>, Seq<char>, Seq<char>), header: Option<JwtHeader>, cfg: AuthConfig) -> Result<Seq<u8>, AuthError> {
    match header {
        None => Err(AuthError::Parse("header")),
        Some(h) => if h.alg@ != "HS256"@ {
            Err(AuthError::UnsupportedAlgorithm(h.alg))
        } else if !typ_accepted(h, cfg.token_type) {
            Err(AuthError::TypeMismatch)
        } else {
            match base64url_nopad_decoded(encode_utf8(t.2)) {
                None => Err(AuthError::Decode("signature")),
                Some(sig) => if sig != hmac_sha256(cfg.secret@, signing_input(t)) {
                    Err(AuthError::BadSignature)
                } else {
                    match base64url_nopad_decoded(encode_utf8(t.1)) {
                        None => Err(AuthError::Decode("payload")),
                        Some(p) => Ok(p),
                    }
                },
            }
        },
    }
}

/// Second stage: the parsed header (`None` when its JSON did not parse)
/// must name HS256 and, when a token type is configured, carry a matching
/// `typ`; the signature must be the HMAC-SHA256 of `header.payload` under
/// the secret; then the payload is decoded. The caller parses the payload
/// bytes as JSON.
pub fn check_header_and_signature(stage: &HeaderStage, header: Option<JwtHeader>, config: &AuthConfig) -> (r: Result<Vec<u8>, AuthError>)
    ensures
        match second_stage_spec(parts_view(stage.parts), header, *config) {
            Err(AuthError::UnsupportedAlgorithm(alg)) => r matches Err(AuthError::UnsupportedAlgorithm(a)) && a@ == alg@,
            Err(e) => r == Err::<Vec<u8>, AuthError>(e),
            Ok(p) => r matches Ok(b) && b@ == p,
        },
{
    let h = match header {
        Some(h) => h,
        None => return Err(AuthError::Parse("header")),
    };
    if !str_eq(h.alg.as_str(), "HS256") {
        return Err(AuthError::UnsupportedAlgorithm(h.alg));
    }
    if let Some(expected) = &config.token_type {
        let accepted = match &h.typ {
            Some(typ) => {
                let a = normalize_typ(typ.as_str());
                let b = normalize_typ(expected.as_str());
                a == b
            },
            None => false,
        };
        if !accepted {
            return Err(AuthError::TypeMismatch);
        }
    }
    let with_dot = concat(stage.parts.header_b64.as_str(), ".");
    let input = concat(with_dot.as_str(), stage.parts.payload_b64.as_str());
    let signature = match base64url_decode(stage.parts.signature_b64.as_str()) {
        Some(s) => s,
        None => return Err(AuthError::Decode("signature")),
    };
    match hmac_sha256_verify(config.secret.as_slice(), input.as_str().as_bytes(), signature.as_slice()) {
        None => return Err(AuthError::Config("secret key invalid for HMAC")),
        Some(false) => return Err(AuthError::BadSignature),
        Some(true) => {},
    }
    match base64url_decode(stage.parts.payload_b64.as_str()) {
        Some(p) => Ok(p),
        None => Err(AuthError::Decode("payload")),
    }
}

/// `a + b`, saturating at `u64::MAX`.
pub open spec fn sat_add(a: u64, b: u64) -> u64 {
    if a + b > u64::MAX { u64::MAX } else { (a + b) as u64 }
}

/// Whether a list of strings holds `s`.
pub open spec fn list_contains(v: Seq<String>, s: Seq<char>) -> bool {
    exists|i: int| 0 <= i < v.len() && (#[trigger] v[i])@ == s
}

/// The first claim check that fails, in order; `None` when all pass.
pub open spec fn claims_error(c: JwtClaims, cfg: AuthConfig, now: u64) -> Option<AuthError> {
    if !(c.iss matches Some(i) && i@ == cfg.issuer@) {
        Some(AuthError::IssuerMismatch)
    } else if !(c.aud matches Some(a) && audience_contains_spec(a, cfg.audience@)) {
        Some(AuthError::AudienceMismatch)
    } else if c.exp is None {
        Some(AuthError::MissingExpiry)
    } else if now >= sat_add(c.exp.unwrap(), cfg.clock_skew_leeway_seconds) {
        Some(AuthError::TokenExpired)
    } else if c.nbf matches Some(nbf) && sat_add(now, cfg.clock_skew_leeway_seconds) < nbf {
        Some(AuthError::TokenNotYetValid)
    } else if claim_text(c, cfg.user_id_claim@) is None {
        Some(AuthError::MissingUserId)
    } else if !safe_header_value(claim_text(c, cfg.user_id_claim@).unwrap()) {
        Some(AuthError::InvalidClaimValue)
    } else if (cfg.tenant_id_claim matches Some(tc) && claim_text(c, tc@) matches Some(t) && !safe_header_value(t)) {
        Some(AuthError::InvalidClaimValue)
    } else if cfg.revoked_jti.len() > 0 {
        match c.jti {
            None => Some(AuthError::MissingJti),
            Some(j) => if list_contains(cfg.revoked_jti@, j@) { Some(AuthError::TokenRevoked) } else { None },
        }
    } else {
        None
    }
}

fn list_has(v: &Vec<String>, s: &str) -> (r: bool)
    ensures
        r == list_contains(v@, s@),
{
    let mut i: usize = 0;
    while i < v.len()
        invariant
            i <= v.len(),
            forall|k: int| 0 <= k < i ==> (#[trigger] v@[k])@ != s@,
        decreases v.len() - i,
    {
        if str_eq(v[i].as_str(), s) {
            assert(v@[i as int]@ == s@);
            return true;
        }
        i = i + 1;
    }
    false
}

/// Third stage: the parsed claims (`None` when the payload JSON did not
/// parse) must name the configured issuer and audience; `exp` is required
/// and, widened by the leeway, must lie ahead of `now`; `nbf`, when
/// present, must not lie beyond `now` plus the leeway; the identity claim
/// must resolve to a safe header value, as must the tenant claim when
/// configured and present; with a revocation list, `jti` is required and
/// must not be on it.
pub fn check_claims(claims: Option<JwtClaims>, config: &AuthConfig, now: u64) -> (r: Result<ValidatedToken, AuthError>)
    ensures
        claims is None ==> r == Err::<ValidatedToken, AuthError>(AuthError::Parse("payload")),
        claims matches Some(c) ==> match claims_error(c, *config, now) {
            Some(e) => r == Err::<ValidatedToken, AuthError>(e),
            None => r == Ok::<ValidatedToken, AuthError>(ValidatedToken { claims: c }),
        },
{
    let c = match claims {
        Some(c) => c,
        None => return Err(AuthError::Parse("payload")),
    };
    let iss_ok = match &c.iss {
        Some(iss) => *iss == config.issuer,
        None => false,
    };
    if !iss_ok {
        return Err(AuthError::IssuerMismatch);
    }
    let aud_ok = match &c.aud {
        Some(aud) => aud.contains(config.audience.as_str()),
        None => false,
    };
    if !aud_ok {
        return Err(AuthError::AudienceMismatch);
    }
    let leeway = config.clock_skew_leeway_seconds;
    let exp = match c.exp {
        Some(e) => e,
        None => return Err(AuthError::MissingExpiry),
    };
    if now >= exp.saturating_add(leeway) {
        return Err(AuthError::TokenExpired);
    }
    if let Some(nbf) = c.nbf {
        if now.saturating_add(leeway) < nbf {
            return Err(AuthError::TokenNotYetValid);
        }
    }
    match c.get_claim(config.user_id_claim.as_str()) {
        Some(user_id) => {
            if !is_safe_header_value(user_id.as_str()) {
                return Err(AuthError::InvalidClaimValue);
            }
        },
        None => return Err(AuthError::MissingUserId),
    }
    if let Some(tenant_claim) = &config.tenant_id_claim {
        if let Some(tenant_id) = c.get_claim(tenant_claim.as_str()) {
            if !is_safe_header_value(tenant_id.as_str()) {
                return Err(AuthError::InvalidClaimValue);
            }
        }
    }
    if config.revoked_jti.len() > 0 {
        match &c.jti {
            Some(jti) => {
                if list_has(&config.revoked_jti, jti.as_str()) {
                    return Err(AuthError::TokenRevoked);
                }
            },
            None => return Err(AuthError::MissingJti),
        }
    }
    Ok(ValidatedToken { claims: c })
}


/// What an accepted claim set is: issued by the configured issuer for the
/// configured audience, with an expiry still ahead of `now` (widened by
/// the leeway), no `nbf` beyond `now` plus the leeway, an identity claim
/// usable as a header value, and, with a revocation list, a `jti` not on it.
pub proof fn law_accepted_claims_are_current(c: JwtClaims, cfg: AuthConfig, now: u64)
    requires
        claims_error(c, cfg, now) is None,
    ensures
        c.iss matches Some(i) && i@ == cfg.issuer@,
        c.aud matches Some(a) && audience_contains_spec(a, cfg.audience@),
        c.exp matches Some(e) && now < sat_add(e, cfg.clock_skew_leeway_seconds),
        c.nbf matches Some(nbf) ==> nbf <= sat_add(now, cfg.clock_skew_leeway_seconds),
        claim_text(c, cfg.user_id_claim@) matches Some(u) && safe_header_value(u),
        cfg.revoked_jti@.len() > 0 ==> (c.jti matches Some(j) && !list_contains(cfg.revoked_jti@, j@)),
{
}

/// The second stage accepts only a signature that is the HMAC-SHA256 of
/// `header.payload` under the secret, over an HS256 header.
pub proof fn law_signature_checked_before_payload(t: (Seq<char>, Seq<char>, Seq<char>), header: Option<JwtHeader>, cfg: AuthConfig)
    requires
        second_stage_spec(t, header, cfg) is Ok,
    ensures
        header matches Some(h) && h.alg@ == "HS256"@ && typ_accepted(h, cfg.token_type),
        base64url_nopad_decoded(encode_utf8(t.2)) == Some(hmac_sha256(cfg.secret@, signing_input(t))),
{
}

} // verus!
