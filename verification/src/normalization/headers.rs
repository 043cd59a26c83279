//! HTTP/2 request header normalization (RFC 9110, RFC 9113).
use vstd::prelude::*;
use crate::normalization::types::{NormalizationOutcome, RejectReason, RewriteReason};
use crate::text::{chars_eq, push_char, str_chars, trim_chars, trim_spec};

verus! {

/// `HeaderValue::to_str` accepts visible ASCII and horizontal tab.
pub open spec fn is_visible_ascii(b: u8) -> bool {
    (32 <= b && b < 127) || b == 9
}

/// `HeaderValue::from_str` accepts these bytes.
pub open spec fn is_valid_value_byte(b: u8) -> bool {
    (b >= 32 && b != 127) || b == 9
}

/// The characters of a visible-ASCII header value.
pub open spec fn ascii_text(b: Seq<u8>) -> Seq<char> {
    Seq::new(b.len(), |i: int| b[i] as char)
}

/// Whether every character of a string is accepted by `HeaderValue::from_str`.
pub open spec fn is_valid_value_text(s: Seq<char>) -> bool {
    forall|i: int| 0 <= i < s.len() ==> #[trigger] is_valid_value_char(s[i])
}

pub open spec fn is_valid_value_char(c: char) -> bool {
    (c as u32) < 128 && is_valid_value_byte(c as u8)
}

/// A header as it arrives: a (lowercase) name and the raw value bytes.
pub type RawHeaderView = (Seq<char>, Seq<u8>);

/// A normalized header: name and value text.
pub type HeaderView = (Seq<char>, Seq<char>);

/// Connection-specific fields that HTTP/2 forbids (RFC 9113 §8.2.2).
pub open spec fn is_http2_forbidden_name(name: Seq<char>) -> bool {
    ||| name == "connection"@
    ||| name == "keep-alive"@
    ||| name == "proxy-authenticate"@
    ||| name == "proxy-authorization"@
    ||| name == "transfer-encoding"@
    ||| name == "upgrade"@
    ||| name == "trailer"@
}

/// Whether a name holds an ASCII uppercase letter.
pub open spec fn has_ascii_uppercase(name: Seq<char>) -> bool {
    exists|i: int| 0 <= i < name.len() && 'A' <= #[trigger] name[i] <= 'Z'
}

/// The position of `name` among the normalized headers, if present.
pub open spec fn find_header(list: Seq<HeaderView>, name: Seq<char>) -> Option<int>
    decreases list.len(),
{
    if list.len() == 0 {
        None
    } else if list.last().0 == name {
        Some(list.len() - 1)
    } else {
        find_header(list.drop_last(), name)
    }
}

/// One header of the walk: either a rejection, or the updated list and
/// rewrite flag.
pub open spec fn header_step(list: Seq<HeaderView>, rw: bool, h: RawHeaderView) -> Result<(Seq<HeaderView>, bool), RejectReason> {
    let (name, raw) = h;
    if has_ascii_uppercase(name) {
        Err(RejectReason::HeaderEncodingViolation)
    } else if is_http2_forbidden_name(name) {
        Err(RejectReason::HopByHopHeader)
    } else if !(forall|i: int| 0 <= i < raw.len() ==> is_visible_ascii(#[trigger] raw[i])) {
        Err(RejectReason::HeaderEncodingViolation)
    } else if name == "te"@ && trim_spec(ascii_text(raw)) != "trailers"@ {
        Err(RejectReason::HopByHopHeader)
    } else {
        let text = ascii_text(raw);
        let trimmed = trim_spec(text);
        let rw2 = rw || trimmed != text;
        match find_header(list, name) {
            Some(j) => {
                let merged = list[j].1 + ", "@ + trimmed;
                (Ok((list.update(j, (name, merged)), true)))
            },
            None => Ok((list.push((name, trimmed)), rw2)),
        }
    }
}

/// The walk over all headers, in order; the first rejection wins.
pub open spec fn header_walk(hs: Seq<RawHeaderView>) -> Result<(Seq<HeaderView>, bool), RejectReason>
    decreases hs.len(),
{
    if hs.len() == 0 {
        Ok((Seq::empty(), false))
    } else {
        match header_walk(hs.drop_last()) {
            Err(e) => Err(e),
            Ok((list, rw)) => header_step(list, rw, hs.last()),
        }
    }
}

/// What `normalize_http2_headers` decides.
pub open spec fn normalize_http2_headers_spec(hs: Seq<RawHeaderView>) -> NormalizationOutcome<Seq<HeaderView>> {
    match header_walk(hs) {
        Err(reason) => NormalizationOutcome::Reject { reason },
        Ok((list, rw)) => if rw {
            NormalizationOutcome::Rewrite { value: list, reason: RewriteReason::HeaderCanonicalization }
        } else {
            NormalizationOutcome::Accept(list)
        },
    }
}

/// The views of raw headers: name characters and value bytes.
pub open spec fn raw_headers_view(raw: Seq<(String, Vec<u8>)>) -> Seq<RawHeaderView> {
    raw.map_values(|h: (String, Vec<u8>)| (h.0@, h.1@))
}

/// The value of the first header named `name`.
pub open spec fn first_value(list: Seq<HeaderView>, name: Seq<char>) -> Option<Seq<char>>
    decreases list.len(),
{
    if list.len() == 0 {
        None
    } else if list[0].0 == name {
        Some(list[0].1)
    } else {
        first_value(list.drop_first(), name)
    }
}

pub proof fn lemma_first_value_at(list: Seq<HeaderView>, name: Seq<char>, i: int)
    requires
        0 <= i <= list.len(),
        forall|k: int| 0 <= k < i ==> (#[trigger] list[k]).0 != name,
    ensures
        i < list.len() && list[i].0 == name ==> first_value(list, name) == Some(list[i].1),
        i == list.len() ==> first_value(list, name) is None,
    decreases list.len(),
{
    if list.len() > 0 && i > 0 {
        assert forall|k: int| 0 <= k < i - 1 implies (#[trigger] list.drop_first()[k]).0 != name by {
            assert(list.drop_first()[k] == list[k + 1]);
        }
        lemma_first_value_at(list.drop_first(), name, i - 1);
    }
}

/// Headers after normalization: one entry per name, in first-seen order.
#[derive(Debug, Default)]
pub struct NormalizedHeaders {
    headers: Vec<(String, String)>,
}

/// The character views of owned headers.
pub open spec fn headers_view(v: Seq<(String, String)>) -> Seq<HeaderView> {
    v.map_values(|h: (String, String)| (h.0@, h.1@))
}

impl View for NormalizedHeaders {
    type V = Seq<HeaderView>;

    closed spec fn view(&self) -> Seq<HeaderView> {
        headers_view(self.headers@)
    }
}

impl NormalizedHeaders {
    /// Wraps already-normalized headers.
    pub fn new(headers: Vec<(String, String)>) -> (h: Self)
        ensures
            h@ == headers_view(headers@),
    {
        NormalizedHeaders { headers }
    }

    /// The headers, one entry per name.
    pub fn as_list(&self) -> (l: &[(String, String)])
        ensures
            headers_view(l@) == self@,
    {
        self.headers.as_slice()
    }

    /// Number of header names.
    pub fn len(&self) -> (n: usize)
        ensures
            n == self@.len(),
    {
        self.headers.len()
    }

    /// The value stored under `name`, if any (the first, should the name
    /// occur twice).
    pub fn get(&self, name: &str) -> (r: Option<&String>)
        ensures
            r matches Some(v) ==> exists|i: int| 0 <= i < self@.len() && self@[i] == (name@, v@),
            r is None ==> forall|i: int| 0 <= i < self@.len() ==> self@[i].0 != name@,
            first_value(self@, name@) == (match r {
                Some(v) => Some(v@),
                None => None::<Seq<char>>,
            }),
    {
        let n = str_chars(name);
        let mut i: usize = 0;
        while i < self.headers.len()
            invariant
                i <= self.headers.len(),
                n@ == name@,
                forall|k: int| 0 <= k < i ==> self@[k].0 != name@,
            decreases self.headers.len() - i,
        {
            let k = str_chars(self.headers[i].0.as_str());
            if chars_eq(&k, &n) {
                assert(self@[i as int] == (name@, self.headers[i as int].1@));
                proof {
                    lemma_first_value_at(self@, name@, i as int);
                }
                return Some(&self.headers[i].1);
            }
            i = i + 1;
        }
        proof {
            lemma_first_value_at(self@, name@, self@.len() as int);
        }
        None
    }
}

/// The character-level view of a header outcome.
pub open spec fn headers_outcome_view(o: NormalizationOutcome<NormalizedHeaders>) -> NormalizationOutcome<Seq<HeaderView>> {
    match o {
        NormalizationOutcome::Accept(h) => NormalizationOutcome::Accept(h@),
        NormalizationOutcome::Rewrite { value, reason } => NormalizationOutcome::Rewrite { value: value@, reason },
        NormalizationOutcome::Reject { reason } => NormalizationOutcome::Reject { reason },
    }
}

fn lit_eq(v: &Vec<char>, lit: &str) -> (r: bool)
    ensures
        r == (v@ == lit@),
{
    let l = str_chars(lit);
    chars_eq(v, &l)
}

/// Whether a (lowercase) header name is forbidden in HTTP/2 (RFC 9113 §8.2.2).
pub fn is_http2_forbidden_header(name: &str) -> (r: bool)
    ensures
        r == is_http2_forbidden_name(name@),
{
    let v = str_chars(name);
    lit_eq(&v, "connection") || lit_eq(&v, "keep-alive") || lit_eq(&v, "proxy-authenticate")
        || lit_eq(&v, "proxy-authorization") || lit_eq(&v, "transfer-encoding") || lit_eq(&v, "upgrade")
        || lit_eq(&v, "trailer")
}

fn has_uppercase(v: &Vec<char>) -> (r: bool)
    ensures
        r == has_ascii_uppercase(v@),
{
    let mut i: usize = 0;
    while i < v.len()
        invariant
            i <= v.len(),
            forall|k: int| 0 <= k < i ==> !('A' <= #[trigger] v@[k] <= 'Z'),
        decreases v.len() - i,
    {
        if 'A' <= v[i] && v[i] <= 'Z' {
            return true;
        }
        i = i + 1;
    }
    false
}

/// `HeaderValue::to_str`: the value as text when it is visible ASCII.
pub fn value_text(raw: &Vec<u8>) -> (r: Option<Vec<char>>)
    ensures
        r is Some <==> forall|i: int| 0 <= i < raw@.len() ==> is_visible_ascii(#[trigger] raw@[i]),
        r matches Some(t) ==> t@ == ascii_text(raw@),
{
    let mut out: Vec<char> = Vec::new();
    let mut i: usize = 0;
    while i < raw.len()
        invariant
            i <= raw.len(),
            forall|k: int| 0 <= k < i ==> is_visible_ascii(#[trigger] raw@[k]),
            out@ == ascii_text(raw@.take(i as int)),
        decreases raw.len() - i,
    {
        let b = raw[i];
        if !((32 <= b && b < 127) || b == 9) {
            return None;
        }
        out.push(b as char);
        i = i + 1;
        assert(out@ =~= ascii_text(raw@.take(i as int)));
    }
    assert(raw@.take(raw.len() as int) =~= raw@);
    Some(out)
}

fn find_header_exec(out: &Vec<(String, String)>, name: &Vec<char>) -> (r: Option<usize>)
    ensures
        r matches Some(j) ==> find_header(headers_view(out@), name@) == Some(j as int),
        r is None ==> find_header(headers_view(out@), name@) is None,
{
    let mut i: usize = out.len();
    assert(headers_view(out@).take(out.len() as int) =~= headers_view(out@));
    while i > 0
        invariant
            i <= out.len(),
            find_header(headers_view(out@), name@) == find_header(headers_view(out@).take(i as int), name@),
        decreases i,
    {
        let k = str_chars(out[i - 1].0.as_str());
        let ghost t = headers_view(out@).take(i as int);
        assert(t.last() == headers_view(out@)[i - 1]);
        if chars_eq(&k, name) {
            return Some(i - 1);
        }
        assert(t.drop_last() =~= headers_view(out@).take(i - 1));
        i = i - 1;
    }
    None
}

/// Normalizes HTTP/2 request headers (RFC 9110, RFC 9113).
///
/// Names must be lowercase; connection-specific names are rejected; `te` is
/// only allowed as `trailers`; values must be visible ASCII. Values are
/// trimmed, and repeated names are folded into one `a, b` value.
pub fn normalize_http2_headers(raw: &Vec<(String, Vec<u8>)>) -> (r: NormalizationOutcome<NormalizedHeaders>)
    ensures
        headers_outcome_view(r) == normalize_http2_headers_spec(raw_headers_view(raw@)),
{
    let ghost hs = raw_headers_view(raw@);
    let mut rewritten = false;
    let mut out: Vec<(String, String)> = Vec::new();
    let mut i: usize = 0;
    assert(hs.take(0) =~= Seq::<RawHeaderView>::empty());
    assert(headers_view(out@) =~= Seq::<HeaderView>::empty());
    while i < raw.len()
        invariant
            i <= raw.len(),
            hs == raw_headers_view(raw@),
            header_walk(hs.take(i as int)) == Ok::<(Seq<HeaderView>, bool), RejectReason>((headers_view(out@), rewritten)),
        decreases raw.len() - i,
    {
        let ghost t = hs.take(i + 1);
        proof {
            assert(t.drop_last() =~= hs.take(i as int));
            assert(t.last() == (raw[i as int].0@, raw[i as int].1@));
        }
        let name = str_chars(raw[i].0.as_str());
        if has_uppercase(&name) {
            proof { lemma_walk_err_sticky(hs, i + 1); }
            return NormalizationOutcome::reject_for_header_encoding_violation();
        }
        if is_http2_forbidden_header(raw[i].0.as_str()) {
            proof { lemma_walk_err_sticky(hs, i + 1); }
            return NormalizationOutcome::Reject { reason: RejectReason::HopByHopHeader };
        }
        let text = match value_text(&raw[i].1) {
            Some(t) => t,
            None => {
                proof { lemma_walk_err_sticky(hs, i + 1); }
                return NormalizationOutcome::reject_for_header_encoding_violation();
            },
        };
        let trimmed = trim_chars(&text);
        if lit_eq(&name, "te") {
            let tv = str_chars(trimmed.as_str());
            if !lit_eq(&tv, "trailers") {
                proof { lemma_walk_err_sticky(hs, i + 1); }
                return NormalizationOutcome::Reject { reason: RejectReason::HopByHopHeader };
            }
        }
        let tv2 = str_chars(trimmed.as_str());
        if !chars_eq(&tv2, &text) {
            rewritten = true;
        }
        let ghost before = headers_view(out@);
        match find_header_exec(&out, &name) {
            Some(j) => {
                proof {
                    lemma_find_header_name(before, name@);
                }
                let mut merged = out[j].1.clone();
                push_char(&mut merged, ',');
                push_char(&mut merged, ' ');
                let mut k: usize = 0;
                let ghost m0 = merged@;
                while k < tv2.len()
                    invariant
                        k <= tv2.len(),
                        merged@ == m0 + tv2@.take(k as int),
                    decreases tv2.len() - k,
                {
                    push_char(&mut merged, tv2[k]);
                    k = k + 1;
                    assert(merged@ =~= m0 + tv2@.take(k as int));
                }
                assert(tv2@.take(k as int) =~= tv2@);
                let key = out[j].0.clone();
                assert(m0 =~= before[j as int].1 + ", "@) by {
                    reveal_strlit(", ");
                }
                out.set(j, (key, merged));
                assert(headers_view(out@) =~= before.update(j as int, (name@, before[j as int].1 + ", "@ + trimmed@))) by {
                    assert(before[j as int].0 == name@) by {
                        lemma_find_header_name(before, name@);
                    }
                }
                rewritten = true;
            },
            None => {
                let key = raw[i].0.clone();
                out.push((key, trimmed));
                assert(headers_view(out@) =~= before.push((name@, trim_spec(text@))));
            },
        }
        i = i + 1;
    }
    assert(hs.take(raw.len() as int) =~= hs);
    let normalized = NormalizedHeaders::new(out);
    if rewritten {
        NormalizationOutcome::Rewrite { value: normalized, reason: RewriteReason::HeaderCanonicalization }
    } else {
        NormalizationOutcome::Accept(normalized)
    }
}

/// `find_header` returns a position that holds the name.
pub proof fn lemma_find_header_name(list: Seq<HeaderView>, name: Seq<char>)
    ensures
        find_header(list, name) matches Some(j) ==> 0 <= j < list.len() && list[j].0 == name,
    decreases list.len(),
{
    if list.len() > 0 && list.last().0 != name {
        lemma_find_header_name(list.drop_last(), name);
    }
}

/// A rejection part-way makes the whole walk a rejection.
pub proof fn lemma_walk_err_sticky(hs: Seq<RawHeaderView>, k: int)
    requires
        0 <= k <= hs.len(),
        header_walk(hs.take(k)) is Err,
    ensures
        header_walk(hs) == header_walk(hs.take(k)),
    decreases hs.len() - k,
{
    if k < hs.len() {
        let t = hs.take(k + 1);
        assert(t.drop_last() =~= hs.take(k));
        lemma_walk_err_sticky(hs, k + 1);
    } else {
        assert(hs.take(k) =~= hs);
    }
}


/// No two headers share a name.
pub open spec fn names_distinct(list: Seq<HeaderView>) -> bool {
    forall|i: int, j: int| 0 <= i < list.len() && 0 <= j < list.len() && i != j ==> (#[trigger] list[i]).0 != (#[trigger] list[j]).0
}

/// `find_header` finds every name the list holds.
pub proof fn lemma_find_header_complete(list: Seq<HeaderView>, name: Seq<char>, k: int)
    requires
        0 <= k < list.len(),
        list[k].0 == name,
    ensures
        find_header(list, name) is Some,
    decreases list.len(),
{
    if list.last().0 != name {
        assert(k < list.len() - 1);
        assert(list.drop_last()[k] == list[k]);
        lemma_find_header_complete(list.drop_last(), name, k);
    }
}

/// The normalized headers hold one entry per name: repeated names are
/// folded into the first entry.
pub proof fn law_normalized_header_names_distinct(hs: Seq<RawHeaderView>)
    ensures
        header_walk(hs) matches Ok((list, _)) ==> names_distinct(list),
    decreases hs.len(),
{
    if hs.len() > 0 {
        law_normalized_header_names_distinct(hs.drop_last());
        match header_walk(hs.drop_last()) {
            Err(_) => {},
            Ok((list, rw)) => {
                let name = hs.last().0;
                lemma_find_header_name(list, name);
                match find_header(list, name) {
                    Some(j) => {
                        match header_walk(hs) {
                            Ok((out, _)) => {
                                assert forall|a: int, b: int| 0 <= a < out.len() && 0 <= b < out.len() && a != b
                                    implies (#[trigger] out[a]).0 != (#[trigger] out[b]).0 by {
                                    assert(out[a].0 == list[a].0 && out[b].0 == list[b].0);
                                }
                            },
                            Err(_) => {},
                        }
                    },
                    None => {
                        match header_walk(hs) {
                            Ok((out, _)) => {
                                assert forall|a: int, b: int| 0 <= a < out.len() && 0 <= b < out.len() && a != b
                                    implies (#[trigger] out[a]).0 != (#[trigger] out[b]).0 by {
                                    if a == list.len() {
                                        if list[b].0 == name {
                                            lemma_find_header_complete(list, name, b);
                                        }
                                    } else if b == list.len() {
                                        if list[a].0 == name {
                                            lemma_find_header_complete(list, name, a);
                                        }
                                    }
                                }
                            },
                            Err(_) => {},
                        }
                    },
                }
            },
        }
    }
}

} // verus!
