//! Query-string normalization (RFC 3986 §2.1, §2.3, §3.4).
use vstd::prelude::*;
use vstd::utf8::encode_utf8;
use crate::normalization::pairs::{QueryPairs, pairs_held, pairs_new, pairs_push, pairs_from_vec, pairs_as_slice};
use crate::normalization::segments::{pieces_view, split_chars, split_seq};
use crate::normalization::types::{NormalizationOutcome, RejectReason, RewriteReason};
use crate::text::{chars_contain, chars_eq, push_char, str_chars, string_from_range};

verus! {

/// An ASCII hexadecimal digit.
pub open spec fn is_hex_char(c: char) -> bool {
    let n = c as u32;
    (48 <= n <= 57) || (65 <= n <= 70) || (97 <= n <= 102)
}

/// The value of an ASCII hexadecimal digit.
pub open spec fn hex_char_value(c: char) -> int {
    let n = c as u32;
    if n <= 57 {
        n - 48
    } else if n <= 70 {
        n - 55
    } else {
        n - 87
    }
}

/// The byte a triplet `%XY` of two hex digits stands for.
pub open spec fn triplet_value(x: char, y: char) -> u8 {
    (16 * hex_char_value(x) + hex_char_value(y)) as u8
}

/// An uppercase hexadecimal digit for `0 <= n < 16`.
pub open spec fn upper_hex_digit(n: int) -> char {
    if n < 10 {
        (48 + n) as char
    } else {
        (55 + n) as char
    }
}

/// `%XX` with uppercase hex digits (`format!("%{:02X}", v)`).
pub open spec fn pct_encoded(v: u8) -> Seq<char> {
    seq!['%', upper_hex_digit((v / 16) as int), upper_hex_digit((v % 16) as int)]
}

/// RFC 3986 unreserved: ALPHA / DIGIT / "-" / "." / "_" / "~".
pub open spec fn is_unreserved_byte(v: u8) -> bool {
    ||| 48 <= v <= 57
    ||| 65 <= v <= 90
    ||| 97 <= v <= 122
    ||| v == 45
    ||| v == 46
    ||| v == 95
    ||| v == 126
}

/// What one decoded `%XX` triplet becomes.
pub open spec fn decoded_triplet(v: u8) -> Seq<char> {
    if v > 127 {
        pct_encoded(v)
    } else if is_unreserved_byte(v) {
        seq![v as char]
    } else {
        pct_encoded(v)
    }
}

/// Decoding of `s[i..]`; `None` for malformed percent-encoding: a `%` not
/// followed by two hexadecimal digits. Every character outside a triplet
/// is kept as it is.
pub open spec fn pct_decode_from(s: Seq<char>, i: int) -> Option<Seq<char>>
    decreases s.len() - i,
{
    if i < 0 || i >= s.len() {
        Some(Seq::<char>::empty())
    } else if s[i] == '%' {
        if i + 2 >= s.len() || !is_hex_char(s[i + 1]) || !is_hex_char(s[i + 2]) {
            None
        } else {
            match pct_decode_from(s, i + 3) {
                None => None,
                Some(rest) => Some(decoded_triplet(triplet_value(s[i + 1], s[i + 2])) + rest),
            }
        }
    } else {
        match pct_decode_from(s, i + 1) {
            None => None,
            Some(rest) => Some(seq![s[i]] + rest),
        }
    }
}

/// Percent-decoding of a string.
pub open spec fn pct_decode_spec(s: Seq<char>) -> Option<Seq<char>> {
    pct_decode_from(s, 0)
}

pub open spec fn opt_prepend(pre: Seq<char>, r: Option<Seq<char>>) -> Option<Seq<char>> {
    match r {
        None => None,
        Some(rest) => Some(pre + rest),
    }
}

fn hex_value(c: char) -> (r: Option<u8>)
    ensures
        r is Some <==> is_hex_char(c),
        r matches Some(v) ==> v == hex_char_value(c) && v < 16,
{
    let n = c as u32;
    if 48 <= n && n <= 57 {
        Some((n - 48) as u8)
    } else if 65 <= n && n <= 70 {
        Some((n - 55) as u8)
    } else if 97 <= n && n <= 102 {
        Some((n - 87) as u8)
    } else {
        None
    }
}

fn upper_hex_digit_exec(n: u8) -> (c: char)
    requires
        n < 16,
    ensures
        c == upper_hex_digit(n as int),
{
    if n < 10 {
        (48 + n) as char
    } else {
        (55 + n) as char
    }
}

fn is_unreserved_exec(v: u8) -> (r: bool)
    ensures
        r == is_unreserved_byte(v),
{
    (48 <= v && v <= 57) || (65 <= v && v <= 90) || (97 <= v && v <= 122) || v == 45 || v == 46
        || v == 95 || v == 126
}

/// Decodes percent-encoded unreserved characters (RFC 3986 §2.3) and keeps
/// every other triplet encoded, with uppercase hex (§2.1). Only bytes up to
/// 127 are decoded. A `%` not followed by two hexadecimal digits is an
/// error; every other character is kept as it is.
pub fn percent_decode_unreserved(input: &str) -> (r: Result<String, ()>)
    ensures
        r matches Ok(s) ==> pct_decode_spec(input@) == Some(s@),
        r is Err <==> pct_decode_spec(input@) is None,
{
    let cs = str_chars(input);
    let mut out = String::new();
    let mut i: usize = 0;
    proof {
        assert(out@ + pct_decode_from(cs@, 0).unwrap_or(Seq::empty()) =~= pct_decode_from(cs@, 0).unwrap_or(Seq::empty()));
    }
    while i < cs.len()
        invariant
            i <= cs.len(),
            cs@ == input@,
            pct_decode_from(cs@, 0) == opt_prepend(out@, pct_decode_from(cs@, i as int)),
        decreases cs.len() - i,
    {
        if cs[i] == '%' {
            if cs.len() - i <= 2 {
                return Err(());
            }
            match (hex_value(cs[i + 1]), hex_value(cs[i + 2])) {
                (Some(h), Some(l)) => {
                    let val: u8 = 16 * h + l;
                    let ghost before = out@;
                    assert(val == triplet_value(cs@[i + 1], cs@[i + 2]));
                    if val > 127 || !is_unreserved_exec(val) {
                        push_char(&mut out, '%');
                        push_char(&mut out, upper_hex_digit_exec(val / 16));
                        push_char(&mut out, upper_hex_digit_exec(val % 16));
                        assert(out@ =~= before + pct_encoded(val));
                    } else {
                        push_char(&mut out, val as char);
                        assert(out@ =~= before + seq![val as char]);
                    }
                    proof {
                        assert(out@ == before + decoded_triplet(val));
                        match pct_decode_from(cs@, i + 3) {
                            None => {},
                            Some(rest) => {
                                assert(before + (decoded_triplet(val) + rest) =~= out@ + rest);
                            },
                        }
                    }
                    i = i + 3;
                },
                _ => {
                    return Err(());
                },
            }
        } else {
            let ghost before = out@;
            let c = cs[i];
            push_char(&mut out, c);
            proof {
                match pct_decode_from(cs@, i + 1) {
                    None => {},
                    Some(rest) => {
                        assert(before + (seq![c] + rest) =~= out@ + rest);
                    },
                }
            }
            i = i + 1;
        }
    }
    proof {
        assert(out@ + Seq::<char>::empty() =~= out@);
    }
    Ok(out)
}


/// `a < b` for byte strings, lexicographically (`[u8]::cmp`).
pub open spec fn bytes_lt(a: Seq<u8>, b: Seq<u8>) -> bool
    decreases a.len(),
{
    if a.len() == 0 {
        b.len() > 0
    } else if b.len() == 0 {
        false
    } else if a[0] < b[0] {
        true
    } else if a[0] > b[0] {
        false
    } else {
        bytes_lt(a.drop_first(), b.drop_first())
    }
}

/// `a < b` for strings (`String::cmp` compares UTF-8 bytes).
pub open spec fn str_lt(a: Seq<char>, b: Seq<char>) -> bool {
    bytes_lt(encode_utf8(a), encode_utf8(b))
}

/// `p < q` for key/value pairs (tuple order: key first, then value).
pub open spec fn pair_lt(p: (Seq<char>, Seq<char>), q: (Seq<char>, Seq<char>)) -> bool {
    str_lt(p.0, q.0) || (p.0 == q.0 && str_lt(p.1, q.1))
}

/// Inserts `x` after every element that is not greater than it.
pub open spec fn insert_pair(s: Seq<(Seq<char>, Seq<char>)>, x: (Seq<char>, Seq<char>)) -> Seq<(Seq<char>, Seq<char>)>
    decreases s.len(),
{
    if s.len() == 0 {
        seq![x]
    } else if pair_lt(x, s[0]) {
        seq![x] + s
    } else {
        seq![s[0]] + insert_pair(s.drop_first(), x)
    }
}

/// The pairs in ascending order.
pub open spec fn sort_pairs(s: Seq<(Seq<char>, Seq<char>)>) -> Seq<(Seq<char>, Seq<char>)>
    decreases s.len(),
{
    if s.len() == 0 {
        s
    } else {
        insert_pair(sort_pairs(s.drop_last()), s.last())
    }
}

/// The character views of owned key/value pairs.
pub open spec fn pairs_view(v: Seq<(String, String)>) -> Seq<(Seq<char>, Seq<char>)> {
    v.map_values(|p: (String, String)| (p.0@, p.1@))
}

fn bytes_less(a: &[u8], b: &[u8]) -> (r: bool)
    ensures
        r == bytes_lt(a@, b@),
{
    let mut i: usize = 0;
    assert(a@.skip(0) =~= a@ && b@.skip(0) =~= b@);
    while i < a.len() && i < b.len()
        invariant
            i <= a.len(),
            i <= b.len(),
            forall|k: int| 0 <= k < i ==> a@[k] == b@[k],
            bytes_lt(a@, b@) == bytes_lt(a@.skip(i as int), b@.skip(i as int)),
        decreases a.len() - i,
    {
        if a[i] < b[i] {
            return true;
        }
        if a[i] > b[i] {
            return false;
        }
        proof {
            assert(a@.skip(i as int).drop_first() =~= a@.skip(i + 1));
            assert(b@.skip(i as int).drop_first() =~= b@.skip(i + 1));
        }
        i = i + 1;
    }
    i == a.len() && i < b.len()
}

fn string_less(a: &String, b: &String) -> (r: bool)
    ensures
        r == str_lt(a@, b@),
{
    bytes_less(a.as_str().as_bytes(), b.as_str().as_bytes())
}

fn pair_less(p: &(String, String), q: &(String, String)) -> (r: bool)
    ensures
        r == pair_lt((p.0@, p.1@), (q.0@, q.1@)),
{
    string_less(&p.0, &q.0) || (p.0 == q.0 && string_less(&p.1, &q.1))
}

/// `insert_pair` places `x` at the first position holding a greater element.
pub proof fn lemma_insert_pair_at(s: Seq<(Seq<char>, Seq<char>)>, x: (Seq<char>, Seq<char>), j: int)
    requires
        0 <= j <= s.len(),
        forall|k: int| 0 <= k < j ==> !pair_lt(x, #[trigger] s[k]),
        j < s.len() ==> pair_lt(x, s[j]),
    ensures
        insert_pair(s, x) == s.insert(j, x),
    decreases s.len(),
{
    if s.len() == 0 {
        assert(s.insert(j, x) =~= seq![x]);
    } else if j == 0 {
        assert(s.insert(0, x) =~= seq![x] + s);
    } else {
        let t = s.drop_first();
        assert forall|k: int| 0 <= k < j - 1 implies !pair_lt(x, #[trigger] t[k]) by {
            assert(t[k] == s[k + 1]);
            assert(!pair_lt(x, s[k + 1]));
        }
        if j < s.len() {
            assert(t[j - 1] == s[j]);
        }
        assert(!pair_lt(x, s[0]));
        lemma_insert_pair_at(t, x, j - 1);
        assert(seq![s[0]] + t.insert(j - 1, x) =~= s.insert(j, x));
    }
}

fn clone_pair(p: &(String, String)) -> (r: (String, String))
    ensures
        r.0@ == p.0@,
        r.1@ == p.1@,
{
    (p.0.clone(), p.1.clone())
}

/// Sorts key/value pairs (stable insertion sort).
pub fn sort_query_pairs(pairs: &[(String, String)]) -> (out: Vec<(String, String)>)
    ensures
        pairs_view(out@) == sort_pairs(pairs_view(pairs@)),
{
    let mut out: Vec<(String, String)> = Vec::new();
    let mut i: usize = 0;
    while i < pairs.len()
        invariant
            i <= pairs.len(),
            pairs_view(out@) == sort_pairs(pairs_view(pairs@).take(i as int)),
        decreases pairs.len() - i,
    {
        let x = clone_pair(&pairs[i]);
        let mut j: usize = 0;
        while j < out.len() && !pair_less(&x, &out[j])
            invariant
                j <= out.len(),
                forall|k: int| 0 <= k < j ==> !pair_lt((x.0@, x.1@), #[trigger] pairs_view(out@)[k]),
            decreases out.len() - j,
        {
            j = j + 1;
        }
        let ghost before = pairs_view(out@);
        let ghost xv = (x.0@, x.1@);
        proof {
            lemma_insert_pair_at(before, xv, j as int);
        }
        out.insert(j, x);
        proof {
            assert(pairs_view(out@) =~= before.insert(j as int, xv));
            let t = pairs_view(pairs@).take(i + 1);
            assert(t.drop_last() =~= pairs_view(pairs@).take(i as int));
            assert(t.last() == xv);
        }
        i = i + 1;
    }
    assert(pairs_view(pairs@).take(pairs.len() as int) =~= pairs_view(pairs@));
    out
}


/// `str::split_once(c)`.
pub open spec fn split_once_spec(s: Seq<char>, c: char) -> Option<(Seq<char>, Seq<char>)>
    decreases s.len(),
{
    if s.len() == 0 {
        None
    } else if s[0] == c {
        Some((Seq::<char>::empty(), s.drop_first()))
    } else {
        match split_once_spec(s.drop_first(), c) {
            None => None,
            Some((a, b)) => Some((seq![s[0]] + a, b)),
        }
    }
}

/// The raw key and value of one `&`-separated part.
pub open spec fn raw_pair(part: Seq<char>) -> (Seq<char>, Seq<char>) {
    match split_once_spec(part, '=') {
        Some(kv) => kv,
        None => (part, Seq::<char>::empty()),
    }
}

/// Decodes the parts in order: the decoded pairs and whether any decoding
/// changed something; `None` when a part is malformed.
pub open spec fn decode_parts(parts: Seq<Seq<char>>) -> Option<(Seq<(Seq<char>, Seq<char>)>, bool)>
    decreases parts.len(),
{
    if parts.len() == 0 {
        Some((Seq::empty(), false))
    } else {
        match decode_parts(parts.drop_last()) {
            None => None,
            Some((ps, rw)) => {
                let (k, v) = raw_pair(parts.last());
                match (pct_decode_spec(k), pct_decode_spec(v)) {
                    (Some(dk), Some(dv)) => Some((ps.push((dk, dv)), rw || dk != k || dv != v)),
                    _ => None,
                }
            },
        }
    }
}

/// What `normalize_query` decides: the canonical value is the raw query and
/// its decoded pairs in ascending order.
pub open spec fn normalize_query_spec(q: Seq<char>) -> NormalizationOutcome<(Seq<char>, Seq<(Seq<char>, Seq<char>)>)> {
    if q.len() == 0 {
        NormalizationOutcome::Accept((Seq::<char>::empty(), Seq::empty()))
    } else if q.contains('\0') {
        NormalizationOutcome::Reject { reason: RejectReason::InvalidQueryEncoding }
    } else {
        match decode_parts(split_seq(q, '&')) {
            None => NormalizationOutcome::Reject { reason: RejectReason::InvalidPercentEncoding },
            Some((ps, decoded_rw)) => {
                let sorted = sort_pairs(ps);
                let value = (q, sorted);
                if decoded_rw {
                    NormalizationOutcome::Rewrite { value, reason: RewriteReason::PercentDecodeUnreserved }
                } else if sorted != ps {
                    NormalizationOutcome::Rewrite { value, reason: RewriteReason::QueryCanonicalization }
                } else {
                    NormalizationOutcome::Accept(value)
                }
            },
        }
    }
}

/// A query string with its decoded, ordered pairs.
#[derive(Debug, Default)]
pub struct CanonicalQuery {
    raw: String,
    pairs: QueryPairs,
}

impl View for CanonicalQuery {
    type V = (Seq<char>, Seq<(Seq<char>, Seq<char>)>);

    closed spec fn view(&self) -> Self::V {
        (self.raw@, pairs_view(pairs_held(self.pairs)))
    }
}

impl CanonicalQuery {
    pub fn new(raw: &str, pairs: QueryPairs) -> (q: Self)
        ensures
            q@ == (raw@, pairs_view(pairs_held(pairs))),
    {
        CanonicalQuery { raw: raw.to_owned(), pairs }
    }

    /// The query string as received.
    pub fn raw(&self) -> (s: &str)
        ensures
            s@ == self@.0,
    {
        self.raw.as_str()
    }

    /// The decoded pairs, in ascending order.
    pub fn pairs(&self) -> (p: &[(String, String)])
        ensures
            pairs_view(p@) == self@.1,
    {
        pairs_as_slice(&self.pairs)
    }
}

/// The character-level view of a query outcome.
pub open spec fn query_outcome_view(o: NormalizationOutcome<CanonicalQuery>) -> NormalizationOutcome<(Seq<char>, Seq<(Seq<char>, Seq<char>)>)> {
    match o {
        NormalizationOutcome::Accept(q) => NormalizationOutcome::Accept(q@),
        NormalizationOutcome::Rewrite { value, reason } => NormalizationOutcome::Rewrite { value: value@, reason },
        NormalizationOutcome::Reject { reason } => NormalizationOutcome::Reject { reason },
    }
}

/// Percent-decodes one key or value, reporting whether anything changed.
pub fn percent_decode_unreserved_with_outcome(input: &str) -> (r: Result<(String, bool), RejectReason>)
    ensures
        r matches Ok((s, changed)) ==> pct_decode_spec(input@) == Some(s@) && changed == (s@ != input@),
        r matches Err(e) ==> e == RejectReason::InvalidPercentEncoding,
        r is Err <==> pct_decode_spec(input@) is None,
{
    match percent_decode_unreserved(input) {
        Err(()) => Err(RejectReason::InvalidPercentEncoding),
        Ok(decoded) => {
            let input_chars = str_chars(input);
            let decoded_chars = str_chars(decoded.as_str());
            let same = chars_eq(&decoded_chars, &input_chars);
            Ok((decoded, !same))
        },
    }
}

/// The first index of `c`, if any, agrees with `split_once_spec`.
pub proof fn lemma_split_once_at(s: Seq<char>, c: char, j: int)
    requires
        0 <= j <= s.len(),
        forall|k: int| 0 <= k < j ==> #[trigger] s[k] != c,
        j < s.len() ==> s[j] == c,
    ensures
        j < s.len() ==> split_once_spec(s, c) == Some((s.take(j), s.skip(j + 1))),
        j == s.len() ==> split_once_spec(s, c) is None,
    decreases s.len(),
{
    if s.len() > 0 && j > 0 {
        let t = s.drop_first();
        assert forall|k: int| 0 <= k < j - 1 implies #[trigger] t[k] != c by {
            assert(t[k] == s[k + 1]);
        }
        if j < s.len() {
            assert(t[j - 1] == s[j]);
        }
        assert(s[0] != c);
        lemma_split_once_at(t, c, j - 1);
        if j < s.len() {
            assert(seq![s[0]] + t.take(j - 1) =~= s.take(j));
            assert(t.skip(j) =~= s.skip(j + 1));
        }
    } else if s.len() > 0 {
        assert(s.take(0) =~= Seq::<char>::empty());
        assert(s.skip(1) =~= s.drop_first());
    }
}

/// Splits one part into its raw key and value (`split_once('=')`).
fn split_part(part: &Vec<char>) -> (r: (String, String))
    ensures
        (r.0@, r.1@) == raw_pair(part@),
{
    let mut j: usize = 0;
    while j < part.len() && part[j] != '='
        invariant
            j <= part.len(),
            forall|k: int| 0 <= k < j ==> #[trigger] part@[k] != '=',
        decreases part.len() - j,
    {
        j = j + 1;
    }
    proof {
        lemma_split_once_at(part@, '=', j as int);
    }
    if j < part.len() {
        let k = string_from_range(part, 0, j);
        let v = string_from_range(part, j + 1, part.len());
        proof {
            assert(part@.subrange(0, j as int) =~= part@.take(j as int));
            assert(part@.subrange(j + 1, part.len() as int) =~= part@.skip(j + 1));
        }
        (k, v)
    } else {
        let k = string_from_range(part, 0, part.len());
        assert(part@.subrange(0, part.len() as int) =~= part@);
        (k, String::new())
    }
}

fn pairs_equal(a: &[(String, String)], b: &[(String, String)]) -> (r: bool)
    ensures
        r == (pairs_view(a@) == pairs_view(b@)),
{
    if a.len() != b.len() {
        proof {
            assert(pairs_view(a@).len() != pairs_view(b@).len());
        }
        return false;
    }
    let mut i: usize = 0;
    while i < a.len()
        invariant
            a.len() == b.len(),
            i <= a.len(),
            forall|k: int| 0 <= k < i ==> pairs_view(a@)[k] == pairs_view(b@)[k],
        decreases a.len() - i,
    {
        if !(a[i].0 == b[i].0 && a[i].1 == b[i].1) {
            proof {
                assert(pairs_view(a@)[i as int] != pairs_view(b@)[i as int]);
            }
            return false;
        }
        i = i + 1;
    }
    assert(pairs_view(a@) =~= pairs_view(b@));
    true
}

/// Normalizes a query string (RFC 3986 §2.1, §2.3, §3.4; RFC 7230).
///
/// A query with a NUL is rejected. Each `&`-separated part is split at its
/// first `=`; key and value are percent-decoded (unreserved characters
/// decoded, other triplets kept with uppercase hex). The pairs are then put
/// in ascending order. The raw query is kept as received.
pub fn normalize_query(query: &str) -> (r: NormalizationOutcome<CanonicalQuery>)
    ensures
        query_outcome_view(r) == normalize_query_spec(query@),
{
    let q = str_chars(query);
    if q.len() == 0 {
        let c = CanonicalQuery { raw: String::new(), pairs: pairs_new() };
        assert(c@ =~= (Seq::<char>::empty(), Seq::<(Seq<char>, Seq<char>)>::empty()));
        return NormalizationOutcome::Accept(c);
    }
    if chars_contain(&q, '\0') {
        return NormalizationOutcome::Reject { reason: RejectReason::InvalidQueryEncoding };
    }
    let parts = split_chars(&q, 0, '&');
    let ghost parts_v = pieces_view(parts@);
    assert(q@.skip(0) =~= q@);
    let mut decoded_rewrite = false;
    let mut pairs = pairs_new();
    let mut i: usize = 0;
    while i < parts.len()
        invariant
            i <= parts.len(),
            parts_v == pieces_view(parts@),
            parts_v == split_seq(query@, '&'),
            query@.len() > 0,
            !query@.contains('\0'),
            decode_parts(parts_v.take(i as int)) == Some((pairs_view(pairs_held(pairs)), decoded_rewrite)),
        decreases parts.len() - i,
    {
        let ghost t = parts_v.take(i + 1);
        proof {
            assert(t.drop_last() =~= parts_v.take(i as int));
            assert(t.last() == parts[i as int]@);
        }
        let (raw_key, raw_val) = split_part(&parts[i]);
        let (key, key_rewritten) = match percent_decode_unreserved_with_outcome(raw_key.as_str()) {
            Ok(v) => v,
            Err(e) => {
                proof {
                    lemma_decode_none_sticky(parts_v, i + 1);
                    assert(parts_v.take(parts_v.len() as int) =~= parts_v);
                }
                return NormalizationOutcome::Reject { reason: e };
            },
        };
        let (val, val_rewritten) = match percent_decode_unreserved_with_outcome(raw_val.as_str()) {
            Ok(v) => v,
            Err(e) => {
                proof {
                    lemma_decode_none_sticky(parts_v, i + 1);
                    assert(parts_v.take(parts_v.len() as int) =~= parts_v);
                }
                return NormalizationOutcome::Reject { reason: e };
            },
        };
        decoded_rewrite = decoded_rewrite || key_rewritten || val_rewritten;
        let ghost before = pairs_view(pairs_held(pairs));
        let ghost kv = (key@, val@);
        pairs_push(&mut pairs, (key, val));
        assert(pairs_view(pairs_held(pairs)) =~= before.push(kv));
        i = i + 1;
    }
    assert(parts_v.take(parts.len() as int) =~= parts_v);
    let sorted = sort_query_pairs(pairs_as_slice(&pairs));
    let ordering_rewrite = !pairs_equal(sorted.as_slice(), pairs_as_slice(&pairs));
    let rewritten = decoded_rewrite || ordering_rewrite;
    let canonical = CanonicalQuery::new(query, pairs_from_vec(sorted));
    if rewritten {
        NormalizationOutcome::Rewrite {
            value: canonical,
            reason: if decoded_rewrite {
                RewriteReason::PercentDecodeUnreserved
            } else {
                RewriteReason::QueryCanonicalization
            },
        }
    } else {
        NormalizationOutcome::Accept(canonical)
    }
}

/// A malformed part makes the whole walk fail.
pub proof fn lemma_decode_none_sticky(parts: Seq<Seq<char>>, k: int)
    requires
        0 <= k <= parts.len(),
        decode_parts(parts.take(k)) is None,
    ensures
        decode_parts(parts) is None,
    decreases parts.len() - k,
{
    if k < parts.len() {
        let t = parts.take(k + 1);
        assert(t.drop_last() =~= parts.take(k));
        lemma_decode_none_sticky(parts, k + 1);
    } else {
        assert(parts.take(k) =~= parts);
    }
}


/// No pair is smaller than a pair before it.
pub open spec fn pairs_sorted(s: Seq<(Seq<char>, Seq<char>)>) -> bool {
    forall|i: int, j: int| 0 <= i < j < s.len() ==> !pair_lt(#[trigger] s[j], #[trigger] s[i])
}

pub proof fn lemma_bytes_lt_irreflexive(a: Seq<u8>)
    ensures
        !bytes_lt(a, a),
    decreases a.len(),
{
    if a.len() > 0 {
        lemma_bytes_lt_irreflexive(a.drop_first());
    }
}

pub proof fn lemma_bytes_lt_transitive(a: Seq<u8>, b: Seq<u8>, c: Seq<u8>)
    requires
        bytes_lt(a, b),
        bytes_lt(b, c),
    ensures
        bytes_lt(a, c),
    decreases a.len(),
{
    if a.len() > 0 && b.len() > 0 && c.len() > 0 && a[0] == b[0] && b[0] == c[0] {
        lemma_bytes_lt_transitive(a.drop_first(), b.drop_first(), c.drop_first());
    }
}

pub proof fn lemma_pair_lt_transitive(p: (Seq<char>, Seq<char>), q: (Seq<char>, Seq<char>), r: (Seq<char>, Seq<char>))
    requires
        pair_lt(p, q),
        pair_lt(q, r),
    ensures
        pair_lt(p, r),
{
    if str_lt(p.0, q.0) && str_lt(q.0, r.0) {
        lemma_bytes_lt_transitive(encode_utf8(p.0), encode_utf8(q.0), encode_utf8(r.0));
    } else if p.0 == q.0 && q.0 == r.0 {
        lemma_bytes_lt_transitive(encode_utf8(p.1), encode_utf8(q.1), encode_utf8(r.1));
    }
}

pub proof fn lemma_pair_lt_irreflexive(p: (Seq<char>, Seq<char>))
    ensures
        !pair_lt(p, p),
{
    lemma_bytes_lt_irreflexive(encode_utf8(p.0));
    lemma_bytes_lt_irreflexive(encode_utf8(p.1));
}

/// Inserting into a sorted sequence keeps it sorted and adds one element.
pub proof fn lemma_insert_pair_sorted(s: Seq<(Seq<char>, Seq<char>)>, x: (Seq<char>, Seq<char>))
    requires
        pairs_sorted(s),
    ensures
        pairs_sorted(insert_pair(s, x)),
        insert_pair(s, x).to_multiset() == s.to_multiset().insert(x),
    decreases s.len(),
{
    broadcast use vstd::seq_lib::to_multiset_insert, vstd::seq_lib::to_multiset_contains;
    let out = insert_pair(s, x);
    if s.len() == 0 {
        assert(out =~= s.insert(0, x));
    } else if pair_lt(x, s[0]) {
        assert(out =~= s.insert(0, x));
        assert forall|i: int, j: int| 0 <= i < j < out.len() implies !pair_lt(#[trigger] out[j], #[trigger] out[i]) by {
            if i == 0 {
                assert(out[j] == s[j - 1]);
                if pair_lt(s[j - 1], x) {
                    lemma_pair_lt_transitive(s[j - 1], x, s[0]);
                    if j - 1 == 0 {
                        lemma_pair_lt_irreflexive(s[0]);
                    } else {
                        assert(!pair_lt(s[j - 1], s[0]));
                    }
                }
            } else {
                assert(out[j] == s[j - 1] && out[i] == s[i - 1]);
            }
        }
    } else {
        let t = s.drop_first();
        assert forall|i: int, j: int| 0 <= i < j < t.len() implies !pair_lt(#[trigger] t[j], #[trigger] t[i]) by {
            assert(t[j] == s[j + 1] && t[i] == s[i + 1]);
        }
        lemma_insert_pair_sorted(t, x);
        let it = insert_pair(t, x);
        assert(out =~= it.insert(0, s[0]));
        assert(s =~= t.insert(0, s[0]));
        assert forall|e: (Seq<char>, Seq<char>)| it.contains(e) implies !pair_lt(e, s[0]) by {
            assert(it.to_multiset().contains(e));
            if e != x {
                assert(t.to_multiset().contains(e));
                let k = choose|k: int| 0 <= k < t.len() && t[k] == e;
                assert(s[k + 1] == e);
            }
        }
        assert forall|i: int, j: int| 0 <= i < j < out.len() implies !pair_lt(#[trigger] out[j], #[trigger] out[i]) by {
            if i == 0 {
                assert(out[j] == it[j - 1]);
                assert(it.contains(it[j - 1]));
            } else {
                assert(out[j] == it[j - 1] && out[i] == it[i - 1]);
            }
        }
        assert(out.to_multiset() =~= s.to_multiset().insert(x));
    }
}

/// Sorting gives a sorted permutation.
pub proof fn lemma_sort_pairs_sorted(s: Seq<(Seq<char>, Seq<char>)>)
    ensures
        pairs_sorted(sort_pairs(s)),
        sort_pairs(s).to_multiset() == s.to_multiset(),
    decreases s.len(),
{
    broadcast use vstd::seq_lib::to_multiset_build;
    if s.len() > 0 {
        lemma_sort_pairs_sorted(s.drop_last());
        lemma_insert_pair_sorted(sort_pairs(s.drop_last()), s.last());
        assert(s =~= s.drop_last().push(s.last()));
    }
}

/// The pairs of a canonical query are in ascending order and are exactly
/// the decoded pairs of the query, each as often as it occurs.
pub proof fn law_canonical_query_pairs_sorted(q: Seq<char>)
    ensures
        normalize_query_spec(q).value_spec() matches Some(v) ==> {
            &&& pairs_sorted(v.1)
            &&& q.len() > 0 ==> (decode_parts(split_seq(q, '&')) matches Some(d) && v.1.to_multiset() == d.0.to_multiset())
        },
{
    if q.len() > 0 && !q.contains('\0') {
        match decode_parts(split_seq(q, '&')) {
            Some((ps, _)) => {
                lemma_sort_pairs_sorted(ps);
            },
            None => {},
        }
    }
}

} // verus!
