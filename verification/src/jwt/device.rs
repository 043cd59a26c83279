//! The request decision of the auth device: which requests bypass
//! authentication, where the bearer token comes from, and what is answered
//! or forwarded once the token has been checked.
use vstd::prelude::*;
use vstd::utf8::encode_utf8;
use crate::text::{
    str_chars, str_eq, trim_str, trim_spec, string_from_range, chars_eq_ignore_ascii_case,
    eq_ignore_ascii_case_spec,
};
use crate::jwt::error::AuthError;
use crate::jwt::claims::{ValidatedToken, claim_text, opt_str_view};
use crate::jwt::config::AuthConfig;
use crate::route::strings_view;

verus! {

/// One header: name and value.
#[derive(Debug, Clone)]
pub struct Header {
    pub name: String,
    pub value: String,
}

/// A change to the request's headers.
#[derive(Debug, Clone)]
pub enum HeaderOp {
    Remove(String),
    Assign(Header),
}

/// Changes to apply to the request before it is proxied.
#[derive(Debug, Clone)]
pub struct RequestPatch {
    pub set_route_path: Option<String>,
    pub set_upstream_path: Option<String>,
    pub ops: Vec<HeaderOp>,
}

/// A response the device answers with in place of the upstream.
#[derive(Debug, Clone)]
pub struct SyntheticResponse {
    pub status: u16,
    pub headers: Vec<Header>,
    pub body: Vec<u8>,
}

/// Whether the request goes on, or is answered here.
#[derive(Debug, Clone)]
pub enum Action {
    Continue,
    Respond(SyntheticResponse),
}

/// The device's answer to a request.
#[derive(Debug, Clone)]
pub struct RequestResult {
    pub action: Action,
    pub patch: Option<RequestPatch>,
}

/// Where the request decision stands before the token is checked: done,
/// or a bearer token to validate.
#[derive(Debug, Clone)]
pub enum RequestStep {
    Done(RequestResult),
    Validate(String),
}

pub open spec fn is_remove(op: HeaderOp, name: Seq<char>) -> bool {
    op matches HeaderOp::Remove(n) && n@ == name
}

pub open spec fn is_set(op: HeaderOp, name: Seq<char>, value: Seq<char>) -> bool {
    op matches HeaderOp::Assign(h) && h.name@ == name && h.value@ == value
}

pub open spec fn is_header(h: Header, name: Seq<char>, value: Seq<char>) -> bool {
    h.name@ == name && h.value@ == value
}

/// The bearer token of an `Authorization` value: after trimming, the value
/// must be longer than `bearer ` and start with it in any ASCII case; the
/// token is the trimmed rest.
pub open spec fn bearer_token_spec(v: Seq<char>) -> Option<Seq<char>> {
    let t = trim_spec(v);
    if t.len() > 7 && eq_ignore_ascii_case_spec(t.take(7), "bearer "@) {
        Some(trim_spec(t.skip(7)))
    } else {
        None
    }
}

/// Extracts the token from an `Authorization: Bearer <token>` value.
pub fn extract_bearer_token(auth_value: &str) -> (r: Option<String>)
    ensures
        opt_str_view(r) == bearer_token_spec(auth_value@),
{
    let trimmed = trim_str(auth_value);
    let v = str_chars(trimmed.as_str());
    if v.len() > 7 {
        let head = string_from_range(&v, 0, 7);
        let head_chars = str_chars(head.as_str());
        let prefix = str_chars("bearer ");
        assert(v@.subrange(0, 7) =~= v@.take(7));
        if chars_eq_ignore_ascii_case(&head_chars, &prefix) {
            let rest = string_from_range(&v, 7, v.len());
            assert(v@.subrange(7, v.len() as int) =~= v@.skip(7));
            return Some(trim_str(rest.as_str()));
        }
    }
    None
}

/// The body of an error answer: no detail beyond "internal error" for a
/// configuration fault and "unauthorized" otherwise.
pub open spec fn error_body(status: u16) -> Seq<char> {
    if status == 500 {
        "{\"error\":\"internal error\"}"@
    } else {
        "{\"error\":\"unauthorized\"}"@
    }
}

/// The status of an error, as `AuthError::status` gives it.
pub open spec fn error_status(e: AuthError) -> u16 {
    if e is Config { 500 } else { 401 }
}

/// The answer for an error: its status, a JSON body that names no
/// reason, `content-type: application/json` and `cache-control: no-store`.
pub open spec fn is_error_answer(a: Action, e: AuthError) -> bool {
    &&& a matches Action::Respond(resp)
    &&& resp.status == error_status(e)
    &&& resp.body@ == encode_utf8(error_body(error_status(e)))
    &&& resp.headers@.len() == 2
    &&& is_header(resp.headers@[0], "content-type"@, "application/json"@)
    &&& is_header(resp.headers@[1], "cache-control"@, "no-store"@)
}

fn header(name: &str, value: &str) -> (h: Header)
    ensures
        is_header(h, name@, value@),
{
    Header { name: name.to_owned(), value: value.to_owned() }
}

/// The synthetic answer for an authentication failure.
pub fn error_response(err: &AuthError) -> (a: Action)
    ensures
        is_error_answer(a, *err),
{
    let status = err.status();
    let text = if status == 500 {
        "{\"error\":\"internal error\"}"
    } else {
        "{\"error\":\"unauthorized\"}"
    };
    let body = vstd::slice::slice_to_vec(text.as_bytes());
    let headers = vec![header("content-type", "application/json"), header("cache-control", "no-store")];
    Action::Respond(SyntheticResponse { status, headers, body })
}

/// The header operations of an accepted request: the identity headers and
/// the bearer token are always removed; `x-user-id` is set from the
/// identity claim when it resolves, and `x-tenant-id` from the tenant claim
/// when one is configured and present.
pub open spec fn success_ops_ok(ops: Seq<HeaderOp>, token: ValidatedToken, cfg: AuthConfig) -> bool {
    let user = claim_text(token.claims, cfg.user_id_claim@);
    let tenant = match cfg.tenant_id_claim {
        Some(tc) => claim_text(token.claims, tc@),
        None => None::<Seq<char>>,
    };
    let n_user: int = if user is Some { 1 } else { 0 };
    let n_tenant: int = if tenant is Some { 1 } else { 0 };
    &&& ops.len() == 3 + n_user + n_tenant
    &&& is_remove(ops[0], "x-user-id"@)
    &&& is_remove(ops[1], "x-tenant-id"@)
    &&& is_remove(ops[2], "authorization"@)
    &&& user matches Some(u) ==> is_set(ops[3], "x-user-id"@, u)
    &&& tenant matches Some(t) ==> is_set(ops[3 + n_user], "x-tenant-id"@, t)
}

/// The patch for an accepted request.
pub fn success_patch(token: &ValidatedToken, config: &AuthConfig) -> (r: Option<RequestPatch>)
    ensures
        r matches Some(p) && p.set_route_path is None && p.set_upstream_path is None
            && success_ops_ok(p.ops@, *token, *config),
{
    let mut ops: Vec<HeaderOp> = Vec::new();
    ops.push(HeaderOp::Remove("x-user-id".to_owned()));
    ops.push(HeaderOp::Remove("x-tenant-id".to_owned()));
    ops.push(HeaderOp::Remove("authorization".to_owned()));
    let user = token.claims.get_claim(config.user_id_claim.as_str());
    if let Some(user_id) = user {
        ops.push(HeaderOp::Assign(Header { name: "x-user-id".to_owned(), value: user_id }));
    }
    let tenant = match &config.tenant_id_claim {
        Some(tc) => token.claims.get_claim(tc.as_str()),
        None => None,
    };
    if let Some(tenant_id) = tenant {
        ops.push(HeaderOp::Assign(Header { name: "x-tenant-id".to_owned(), value: tenant_id }));
    }
    Some(RequestPatch { set_route_path: None, set_upstream_path: None, ops })
}

/// The patch of a public-path bypass: only the identity headers are
/// removed, so a client cannot assert an identity upstream.
pub open spec fn is_bypass_patch(p: RequestPatch) -> bool {
    &&& p.set_route_path is None
    &&& p.set_upstream_path is None
    &&& p.ops@.len() == 2
    &&& is_remove(p.ops@[0], "x-user-id"@)
    &&& is_remove(p.ops@[1], "x-tenant-id"@)
}

/// A request that continues with the bypass patch.
pub open spec fn is_bypass_result(res: RequestResult) -> bool {
    res.action is Continue && (res.patch matches Some(p) && is_bypass_patch(p))
}

/// A request that continues with the success patch of `token`.
pub open spec fn is_success_result(res: RequestResult, token: ValidatedToken, cfg: AuthConfig) -> bool {
    &&& res.action is Continue
    &&& res.patch matches Some(p)
    &&& p.set_route_path is None
    &&& p.set_upstream_path is None
    &&& success_ops_ok(p.ops@, token, cfg)
}

/// The index of the first header named `authorization` in any ASCII case.
pub open spec fn first_authorization(hs: Seq<Header>) -> Option<int> {
    if exists|i: int| 0 <= i < hs.len() && eq_ignore_ascii_case_spec((#[trigger] hs[i]).name@, "authorization"@) {
        Some(choose|i: int| 0 <= i < hs.len() && eq_ignore_ascii_case_spec((#[trigger] hs[i]).name@, "authorization"@)
            && forall|j: int| 0 <= j < i ==> !eq_ignore_ascii_case_spec((#[trigger] hs[j]).name@, "authorization"@))
    } else {
        None
    }
}

/// The bearer token of a request, if its first `authorization` header
/// carries one.
pub open spec fn request_token(hs: Seq<Header>) -> Option<Seq<char>> {
    match first_authorization(hs) {
        Some(i) => bearer_token_spec(hs[i].value@),
        None => None,
    }
}

/// The device behind the auth hooks.
pub struct JwtAuthDevice;

impl JwtAuthDevice {
    /// The decision before the token is checked. A configuration error is
    /// answered with its error; a path listed as public continues with the
    /// bypass patch; a request whose first `authorization` header carries
    /// no bearer token is answered with `NoToken`; otherwise the token is
    /// to be validated.
    pub fn begin_request(config: &Result<AuthConfig, AuthError>, route_path: &str, headers: &Vec<Header>) -> (r: RequestStep)
        ensures
            match config {
                Err(e) => r matches RequestStep::Done(res) && res.patch is None && is_error_answer(res.action, *e),
                Ok(c) => if strings_view(c.public_paths@).contains(route_path@) {
                    r matches RequestStep::Done(res) && is_bypass_result(res)
                } else {
                    match request_token(headers@) {
                        None => r matches RequestStep::Done(res) && res.patch is None
                            && is_error_answer(res.action, AuthError::NoToken),
                        Some(t) => r matches RequestStep::Validate(tok) && tok@ == t,
                    }
                },
            },
    {
        let c = match config {
            Ok(c) => c,
            Err(e) => {
                return RequestStep::Done(RequestResult { action: error_response(e), patch: None });
            },
        };
        let mut i: usize = 0;
        while i < c.public_paths.len()
            invariant
                *config == Ok::<AuthConfig, AuthError>(*c),
                i <= c.public_paths.len(),
                forall|k: int| 0 <= k < i ==> (#[trigger] c.public_paths@[k])@ != route_path@,
            decreases c.public_paths.len() - i,
        {
            if str_eq(c.public_paths[i].as_str(), route_path) {
                assert(strings_view(c.public_paths@)[i as int] == route_path@);
                let ops = vec![
                    HeaderOp::Remove("x-user-id".to_owned()),
                    HeaderOp::Remove("x-tenant-id".to_owned()),
                ];
                let patch = RequestPatch { set_route_path: None, set_upstream_path: None, ops };
                return RequestStep::Done(RequestResult { action: Action::Continue, patch: Some(patch) });
            }
            i = i + 1;
        }
        assert(!strings_view(c.public_paths@).contains(route_path@)) by {
            if strings_view(c.public_paths@).contains(route_path@) {
                let k = choose|k: int| 0 <= k < c.public_paths@.len() && strings_view(c.public_paths@)[k] == route_path@;
                assert(c.public_paths@[k]@ != route_path@);
            }
        }
        let auth = str_chars("authorization");
        let mut j: usize = 0;
        while j < headers.len()
            invariant
                *config == Ok::<AuthConfig, AuthError>(*c),
                !strings_view(c.public_paths@).contains(route_path@),
                j <= headers.len(),
                auth@ == "authorization"@,
                forall|k: int| 0 <= k < j ==> !eq_ignore_ascii_case_spec((#[trigger] headers@[k]).name@, "authorization"@),
            decreases headers.len() - j,
        {
            let name = str_chars(headers[j].name.as_str());
            if chars_eq_ignore_ascii_case(&name, &auth) {
                proof {
                    assert(eq_ignore_ascii_case_spec(headers@[j as int].name@, "authorization"@));
                    let w = choose|i: int| 0 <= i < headers@.len() && eq_ignore_ascii_case_spec((#[trigger] headers@[i]).name@, "authorization"@)
                        && forall|q: int| 0 <= q < i ==> !eq_ignore_ascii_case_spec((#[trigger] headers@[q]).name@, "authorization"@);
                    if w < j {
                    } else if w > j {
                        assert(!eq_ignore_ascii_case_spec(headers@[j as int].name@, "authorization"@));
                    }
                    assert(first_authorization(headers@) == Some(j as int));
                }
                return match extract_bearer_token(headers[j].value.as_str()) {
                    Some(t) => RequestStep::Validate(t),
                    None => RequestStep::Done(RequestResult { action: error_response(&AuthError::NoToken), patch: None }),
                };
            }
            j = j + 1;
        }
        RequestStep::Done(RequestResult { action: error_response(&AuthError::NoToken), patch: None })
    }

    /// The decision once the token has been checked: an accepted token
    /// continues with the success patch; a refused one is answered with
    /// its error.
    pub fn finish_request(outcome: &Result<ValidatedToken, AuthError>, config: &AuthConfig) -> (r: RequestResult)
        ensures
            match outcome {
                Ok(t) => is_success_result(r, *t, *config),
                Err(e) => r.patch is None && is_error_answer(r.action, *e),
            },
    {
        match outcome {
            Ok(token) => RequestResult { action: Action::Continue, patch: success_patch(token, config) },
            Err(e) => RequestResult { action: error_response(e), patch: None },
        }
    }
}

} // verus!
