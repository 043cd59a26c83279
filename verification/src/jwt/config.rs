//! The auth device's configuration, built from the host's raw values.
use vstd::prelude::*;
use vstd::utf8::encode_utf8;
use crate::text::{str_chars, trim_chars, trim_spec};
use crate::route::strings_view;
use crate::normalization::segments::{split_chars, split_seq, pieces_view};
use crate::jwt::crypto::{base64_standard_decode, base64_standard_decoded};
use crate::jwt::error::AuthError;
use crate::jwt::token::{MIN_SECRET_BYTES, parse_leeway_seconds, parse_u64_spec};

verus! {

/// The raw configuration values, one per key; `None` where the key is unset.
#[derive(Debug, Clone)]
pub struct ConfigValues {
    /// `secret`: the HMAC key, standard base64.
    pub secret: Option<String>,
    /// `issuer`: the accepted `iss`.
    pub issuer: Option<String>,
    /// `audience`: the accepted `aud`.
    pub audience: Option<String>,
    /// `user_id_claim`: the claim sent upstream as `X-User-Id` (default `sub`).
    pub user_id_claim: Option<String>,
    /// `tenant_id_claim`: the claim sent upstream as `X-Tenant-Id`.
    pub tenant_id_claim: Option<String>,
    /// `public_paths`: comma-separated paths that bypass authentication.
    pub public_paths: Option<String>,
    /// `token_type`: the required `typ`, if any.
    pub token_type: Option<String>,
    /// `clock_skew_leeway_seconds`: a non-negative integer.
    pub clock_skew_leeway_seconds: Option<String>,
    /// `revoked_jti`: comma-separated revoked token ids.
    pub revoked_jti: Option<String>,
}

/// The device configuration.
#[derive(Debug, Clone)]
pub struct AuthConfig {
    pub secret: Vec<u8>,
    pub issuer: String,
    pub audience: String,
    pub user_id_claim: String,
    pub tenant_id_claim: Option<String>,
    pub public_paths: Vec<String>,
    pub token_type: Option<String>,
    pub clock_skew_leeway_seconds: u64,
    pub revoked_jti: Vec<String>,
}

/// The pieces of a comma-separated list, each trimmed.
pub open spec fn comma_list(s: Seq<char>) -> Seq<Seq<char>> {
    split_seq(s, ',').map_values(|p: Seq<char>| trim_spec(p))
}

/// The non-empty strings of a list, in order.
pub open spec fn non_empty(s: Seq<Seq<char>>) -> Seq<Seq<char>>
    decreases s.len(),
{
    if s.len() == 0 {
        s
    } else if s.last().len() > 0 {
        non_empty(s.drop_last()).push(s.last())
    } else {
        non_empty(s.drop_last())
    }
}

/// The non-empty pieces of a comma-separated list, each trimmed.
pub open spec fn comma_set(s: Seq<char>) -> Seq<Seq<char>> {
    non_empty(comma_list(s))
}

/// The first configuration error once the secret is present and decoded
/// from base64 (`None` when it does not decode), in the order the keys are
/// read.
pub open spec fn config_error_after_decode(v: ConfigValues, key: Option<Seq<u8>>) -> Option<AuthError> {
    match key {
        None => Some(AuthError::Config("secret is not valid base64")),
        Some(key) => if key.len() < MIN_SECRET_BYTES {
            Some(AuthError::Config("secret must be at least 32 bytes"))
        } else if v.issuer is None {
            Some(AuthError::Config("missing required config key: issuer"))
        } else if v.audience is None {
            Some(AuthError::Config("missing required config key: audience"))
        } else {
            match v.clock_skew_leeway_seconds {
                Some(l) => if parse_u64_spec(trim_spec(l@)) is None {
                    Some(AuthError::Config("clock_skew_leeway_seconds must be a non-negative integer"))
                } else {
                    None
                },
                None => None,
            }
        },
    }
}

/// The first configuration error, in the order the keys are read.
pub open spec fn config_error(v: ConfigValues) -> Option<AuthError> {
    match v.secret {
        None => Some(AuthError::Config("missing required config key: secret")),
        Some(s) => config_error_after_decode(v, base64_standard_decoded(encode_utf8(s@))),
    }
}

/// What a configuration accepted from `v` holds besides its secret.
pub open spec fn config_rest(v: ConfigValues, c: AuthConfig) -> bool {
    &&& v.issuer matches Some(i) && c.issuer@ == i@
    &&& v.audience matches Some(a) && c.audience@ == a@
    &&& c.user_id_claim@ == (match v.user_id_claim { Some(u) => u@, None => "sub"@ })
    &&& crate::jwt::claims::opt_str_view(c.tenant_id_claim) == crate::jwt::claims::opt_str_view(v.tenant_id_claim)
    &&& strings_view(c.public_paths@) == (match v.public_paths {
        Some(p) => comma_list(p@),
        None => Seq::<Seq<char>>::empty(),
    })
    &&& crate::jwt::claims::opt_str_view(c.token_type) == crate::jwt::claims::opt_str_view(v.token_type)
    &&& c.clock_skew_leeway_seconds == (match v.clock_skew_leeway_seconds {
        Some(l) => parse_u64_spec(trim_spec(l@)).unwrap(),
        None => 0u64,
    })
    &&& strings_view(c.revoked_jti@) == (match v.revoked_jti {
        Some(r) => comma_set(r@),
        None => Seq::<Seq<char>>::empty(),
    })
}

/// What a configuration accepted from `v` holds.
pub open spec fn config_from(v: ConfigValues, c: AuthConfig) -> bool {
    &&& v.secret matches Some(s) && base64_standard_decoded(encode_utf8(s@)) == Some(c.secret@)
    &&& config_rest(v, c)
}

/// The bytes of an optional byte vector.
pub open spec fn opt_bytes_view(o: Option<Vec<u8>>) -> Option<Seq<u8>> {
    match o {
        Some(b) => Some(b@),
        None => None,
    }
}

/// Splits a comma-separated list and trims each piece.
pub fn split_comma_list(s: &str, keep_empty: bool) -> (r: Vec<String>)
    ensures
        keep_empty ==> strings_view(r@) == comma_list(s@),
        !keep_empty ==> strings_view(r@) == comma_set(s@),
{
    let v = str_chars(s);
    let pieces = split_chars(&v, 0, ',');
    assert(v@.skip(0) =~= v@);
    let ghost all = comma_list(s@);
    let mut out: Vec<String> = Vec::new();
    let mut i: usize = 0;
    while i < pieces.len()
        invariant
            i <= pieces.len(),
            pieces_view(pieces@) == split_seq(s@, ','),
            all == comma_list(s@),
            all.len() == pieces.len(),
            keep_empty ==> strings_view(out@) == all.take(i as int),
            !keep_empty ==> strings_view(out@) == non_empty(all.take(i as int)),
        decreases pieces.len() - i,
    {
        let t = trim_chars(&pieces[i]);
        assert(all[i as int] == t@);
        assert(all.take(i + 1) =~= all.take(i as int).push(t@));
        let ghost before = strings_view(out@);
        if keep_empty || !t.as_str().is_empty() {
            if !keep_empty {
                assert(t@.len() > 0) by {
                    if t@.len() == 0 {
                        assert(t@ =~= Seq::<char>::empty());
                    }
                }
            }
            out.push(t);
            assert(strings_view(out@) =~= before.push(t@));
        } else {
            assert(t@.len() == 0);
        }
        assert(all.take(i + 1).drop_last() =~= all.take(i as int));
        i = i + 1;
    }
    assert(all.take(pieces.len() as int) =~= all);
    out
}

impl AuthConfig {
    /// Builds the configuration from the host's raw values. `secret`,
    /// `issuer` and `audience` are required; the secret must be valid
    /// standard base64 and decode to at least [`MIN_SECRET_BYTES`] bytes;
    /// `user_id_claim` defaults to `sub`; list values are comma-separated
    /// and trimmed (empty revoked ids are dropped); the leeway must parse as
    /// a non-negative integer.
    pub fn from_config_values(v: &ConfigValues) -> (r: Result<AuthConfig, AuthError>)
        ensures
            config_error(*v) matches Some(e) ==> r == Err::<AuthConfig, AuthError>(e),
            config_error(*v) is None ==> (r matches Ok(c) && config_from(*v, c)),
    {
        let secret_b64 = match &v.secret {
            Some(s) => s,
            None => return Err(AuthError::Config("missing required config key: secret")),
        };
        let decoded = base64_standard_decode(secret_b64.as_str());
        Self::from_decoded_secret(v, decoded)
    }

    /// Builds the configuration once the secret is decoded from base64
    /// (`None` when it does not decode): the secret must decode to at
    /// least [`MIN_SECRET_BYTES`] bytes; the other keys are read as in
    /// `from_config_values`.
    pub fn from_decoded_secret(v: &ConfigValues, decoded_secret: Option<Vec<u8>>) -> (r: Result<AuthConfig, AuthError>)
        ensures
            config_error_after_decode(*v, opt_bytes_view(decoded_secret)) matches Some(e) ==> r == Err::<AuthConfig, AuthError>(e),
            config_error_after_decode(*v, opt_bytes_view(decoded_secret)) is None ==> (r matches Ok(c)
                && opt_bytes_view(decoded_secret) == Some(c.secret@) && config_rest(*v, c)),
    {
        let secret = match decoded_secret {
            Some(k) => k,
            None => return Err(AuthError::Config("secret is not valid base64")),
        };
        if secret.len() < MIN_SECRET_BYTES {
            return Err(AuthError::Config("secret must be at least 32 bytes"));
        }
        let issuer = match &v.issuer {
            Some(s) => s.clone(),
            None => return Err(AuthError::Config("missing required config key: issuer")),
        };
        let audience = match &v.audience {
            Some(s) => s.clone(),
            None => return Err(AuthError::Config("missing required config key: audience")),
        };
        let user_id_claim = match &v.user_id_claim {
            Some(s) => s.clone(),
            None => "sub".to_owned(),
        };
        let tenant_id_claim = match &v.tenant_id_claim {
            Some(s) => Some(s.clone()),
            None => None,
        };
        let public_paths = match &v.public_paths {
            Some(s) => split_comma_list(s.as_str(), true),
            None => Vec::new(),
        };
        let token_type = match &v.token_type {
            Some(s) => Some(s.clone()),
            None => None,
        };
        let leeway = match &v.clock_skew_leeway_seconds {
            Some(s) => parse_leeway_seconds(Some(s.as_str())),
            None => parse_leeway_seconds(None),
        };
        let clock_skew_leeway_seconds = match leeway {
            Ok(l) => l,
            Err(e) => return Err(e),
        };
        let revoked_jti = match &v.revoked_jti {
            Some(s) => split_comma_list(s.as_str(), false),
            None => Vec::new(),
        };
        assert(strings_view(Seq::<String>::empty()) =~= Seq::<Seq<char>>::empty());
        Ok(AuthConfig {
            secret,
            issuer,
            audience,
            user_id_claim,
            tenant_id_claim,
            public_paths,
            token_type,
            clock_skew_leeway_seconds,
            revoked_jti,
        })
    }
}

} // verus!
