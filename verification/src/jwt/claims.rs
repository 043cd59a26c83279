//! The decoded JOSE header and claim set of a token.
use vstd::prelude::*;
use crate::text::str_eq;

verus! {

/// The `aud` claim: one audience or a list of them.
#[derive(Debug, Clone)]
pub enum Audience {
    Single(String),
    Multiple(Vec<String>),
}

/// A claim outside the registered ones, as far as an upstream header can use
/// it: a string, a number (kept as the text of its JSON form), a boolean, or
/// anything else (array, object, null).
#[derive(Debug, Clone)]
pub enum ClaimValue {
    Str(String),
    Number(String),
    Bool(bool),
    Other,
}

/// The JOSE header: the signing algorithm and the optional token type.
#[derive(Debug, Clone)]
pub struct JwtHeader {
    pub alg: String,
    pub typ: Option<String>,
}

/// The claim set. `extra` holds every claim but the six named ones, by name.
#[derive(Debug, Clone)]
pub struct JwtClaims {
    pub iss: Option<String>,
    pub aud: Option<Audience>,
    pub sub: Option<String>,
    pub exp: Option<u64>,
    pub nbf: Option<u64>,
    pub jti: Option<String>,
    pub extra: Vec<(String, ClaimValue)>,
}

/// A token whose signature and claims were accepted.
#[derive(Debug, Clone)]
pub struct ValidatedToken {
    pub claims: JwtClaims,
}

/// An optional string by its characters.
pub open spec fn opt_str_view(o: Option<String>) -> Option<Seq<char>> {
    match o {
        Some(s) => Some(s@),
        None => None,
    }
}

/// Whether an audience claim names `expected`.
pub open spec fn audience_contains_spec(a: Audience, expected: Seq<char>) -> bool {
    match a {
        Audience::Single(s) => s@ == expected,
        Audience::Multiple(v) => exists|i: int| 0 <= i < v.len() && (#[trigger] v@[i])@ == expected,
    }
}

/// The first extra claim named `name`, if any.
pub open spec fn lookup_extra(extra: Seq<(String, ClaimValue)>, name: Seq<char>) -> Option<ClaimValue>
    decreases extra.len(),
{
    if extra.len() == 0 {
        None
    } else if extra[0].0@ == name {
        Some(extra[0].1)
    } else {
        lookup_extra(extra.drop_first(), name)
    }
}

/// The text a claim value gives as a header value, if it is a scalar.
pub open spec fn claim_value_text(v: ClaimValue) -> Option<Seq<char>> {
    match v {
        ClaimValue::Str(s) => Some(s@),
        ClaimValue::Number(t) => Some(t@),
        ClaimValue::Bool(b) => Some(if b { "true"@ } else { "false"@ }),
        ClaimValue::Other => None,
    }
}

/// The text of the claim `name`: `sub` and `iss` from their fields, any
/// other name from the extra claims, where only scalars have a text.
pub open spec fn claim_text(c: JwtClaims, name: Seq<char>) -> Option<Seq<char>> {
    if name == "sub"@ {
        opt_str_view(c.sub)
    } else if name == "iss"@ {
        opt_str_view(c.iss)
    } else {
        match lookup_extra(c.extra@, name) {
            Some(v) => claim_value_text(v),
            None => None,
        }
    }
}

fn clone_opt_string(o: &Option<String>) -> (r: Option<String>)
    ensures
        opt_str_view(r) == opt_str_view(*o),
{
    match o {
        Some(s) => Some(s.clone()),
        None => None,
    }
}

impl Audience {
    /// Whether the audience is `expected`, or one of the listed audiences is.
    pub fn contains(&self, expected: &str) -> (r: bool)
        ensures
            r == audience_contains_spec(*self, expected@),
    {
        match self {
            Audience::Single(s) => str_eq(s.as_str(), expected),
            Audience::Multiple(v) => {
                let mut i: usize = 0;
                while i < v.len()
                    invariant
                        *self == Audience::Multiple(*v),
                        i <= v.len(),
                        forall|j: int| 0 <= j < i ==> (#[trigger] v@[j])@ != expected@,
                    decreases v.len() - i,
                {
                    if str_eq(v[i].as_str(), expected) {
                        assert(v@[i as int]@ == expected@);
                        assert(exists|k: int| 0 <= k < v.len() && (#[trigger] v@[k])@ == expected@);
                        assert(*self is Multiple);
                        assert(self->Multiple_0 == *v);
                        assert(audience_contains_spec(*self, expected@));
                        return true;
                    }
                    i = i + 1;
                }
                false
            },
        }
    }
}

impl ClaimValue {
    /// The header text of the value: the string, the number's text,
    /// `true`/`false`, or nothing for a non-scalar.
    pub fn as_text(&self) -> (r: Option<String>)
        ensures
            opt_str_view(r) == claim_value_text(*self),
    {
        match self {
            ClaimValue::Str(s) => Some(s.clone()),
            ClaimValue::Number(t) => Some(t.clone()),
            ClaimValue::Bool(b) => {
                if *b {
                    Some("true".to_owned())
                } else {
                    Some("false".to_owned())
                }
            },
            ClaimValue::Other => None,
        }
    }
}

impl JwtClaims {
    /// The claim `name` as a header value: `sub` and `iss` from their
    /// fields; any other claim from the extra claims when it is a string,
    /// a number or a boolean; `None` when absent or not a scalar.
    pub fn get_claim(&self, name: &str) -> (r: Option<String>)
        ensures
            opt_str_view(r) == claim_text(*self, name@),
    {
        if str_eq(name, "sub") {
            return clone_opt_string(&self.sub);
        }
        if str_eq(name, "iss") {
            return clone_opt_string(&self.iss);
        }
        let mut i: usize = 0;
        assert(self.extra@.skip(0) =~= self.extra@);
        while i < self.extra.len()
            invariant
                i <= self.extra.len(),
                name@ != "sub"@,
                name@ != "iss"@,
                lookup_extra(self.extra@, name@) == lookup_extra(self.extra@.skip(i as int), name@),
            decreases self.extra.len() - i,
        {
            assert(self.extra@.skip(i as int).drop_first() =~= self.extra@.skip(i + 1));
            if str_eq(self.extra[i].0.as_str(), name) {
                return self.extra[i].1.as_text();
            }
            i = i + 1;
        }
        None
    }
}

} // verus!
