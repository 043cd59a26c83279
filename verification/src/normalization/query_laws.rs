//! What query normalization promises, stated from RFC 3986 directly:
//! which triplets are decoded, where a part splits into key and value, and
//! what a query of one pair normalizes to.
use vstd::prelude::*;
use crate::normalization::query::{
    decode_parts, hex_char_value, insert_pair, normalize_query_spec, pct_decode_from, pct_decode_spec, raw_pair,
    sort_pairs, split_once_spec, triplet_value, upper_hex_digit,
};
use crate::normalization::segments::split_seq;
use crate::normalization::types::{NormalizationOutcome, RejectReason, RewriteReason};

verus! {

/// A hexadecimal digit: `0`-`9`, `A`-`F` or `a`-`f`.
pub open spec fn hexdig(c: char) -> bool {
    ('0' as u32 <= c as u32 && c as u32 <= '9' as u32)
        || ('A' as u32 <= c as u32 && c as u32 <= 'F' as u32)
        || ('a' as u32 <= c as u32 && c as u32 <= 'f' as u32)
}

/// The value of a hexadecimal digit.
pub open spec fn hexval(c: char) -> int {
    if c as u32 <= '9' as u32 {
        c as u32 - '0' as u32
    } else if c as u32 <= 'F' as u32 {
        c as u32 - 'A' as u32 + 10
    } else {
        c as u32 - 'a' as u32 + 10
    }
}

/// A hexadecimal digit in upper case.
pub open spec fn hex_upper(c: char) -> char {
    if 'a' as u32 <= c as u32 && c as u32 <= 'f' as u32 {
        (c as u32 - 32) as char
    } else {
        c
    }
}

/// RFC 3986 §2.3 unreserved characters, as bytes:
/// ALPHA / DIGIT / "-" / "." / "_" / "~".
pub open spec fn rfc3986_unreserved(b: int) -> bool {
    ||| 'A' as int <= b <= 'Z' as int
    ||| 'a' as int <= b <= 'z' as int
    ||| '0' as int <= b <= '9' as int
    ||| b == '-' as int
    ||| b == '.' as int
    ||| b == '_' as int
    ||| b == '~' as int
}

/// Decoding does not depend on what precedes the position it starts at.
proof fn lemma_decode_shift(pre: Seq<char>, s: Seq<char>, i: int)
    requires
        0 <= i <= s.len(),
    ensures
        pct_decode_from(pre + s, pre.len() + i) == pct_decode_from(s, i),
    decreases s.len() - i,
{
    let t = pre + s;
    if i < s.len() {
        assert(t[pre.len() + i] == s[i]);
        if s[i] == '%' {
            if i + 2 < s.len() {
                assert(t[pre.len() + i + 1] == s[i + 1]);
                assert(t[pre.len() + i + 2] == s[i + 2]);
                lemma_decode_shift(pre, s, i + 3);
                assert(pre.len() + i + 3 == pre.len() + (i + 3));
            }
        } else {
            lemma_decode_shift(pre, s, i + 1);
            assert(pre.len() + i + 1 == pre.len() + (i + 1));
        }
    }
}

/// A triplet `%XY` of two hexadecimal digits decodes to the character of
/// its byte when that byte is an RFC 3986 unreserved character; any other
/// triplet stays encoded, as `%` and its two digits in upper case (so `%20`
/// stays `%20` and `%7e` becomes `~`). What follows is decoded on its own.
pub proof fn law_triplet_decoding(x: char, y: char, rest: Seq<char>)
    requires
        hexdig(x),
        hexdig(y),
    ensures
        pct_decode_spec(seq!['%', x, y] + rest) == (match pct_decode_spec(rest) {
            None => None,
            Some(r) => Some((if rfc3986_unreserved(16 * hexval(x) + hexval(y)) {
                seq![(16 * hexval(x) + hexval(y)) as char]
            } else {
                seq!['%', hex_upper(x), hex_upper(y)]
            }) + r),
        }),
{
    let pre = seq!['%', x, y];
    let s = pre + rest;
    assert(s[0] == '%' && s[1] == x && s[2] == y);
    assert(hex_char_value(x) == hexval(x) && hex_char_value(y) == hexval(y));
    let b = 16 * hexval(x) + hexval(y);
    assert(0 <= b < 256);
    assert(triplet_value(x, y) as int == b);
    lemma_decode_shift(pre, rest, 0);
    assert(pct_decode_from(s, 3) == pct_decode_from(rest, 0));
    let v = triplet_value(x, y);
    assert((v / 16) as int == hexval(x) && (v % 16) as int == hexval(y)) by (nonlinear_arith)
        requires
            v as int == 16 * hexval(x) + hexval(y),
            0 <= hexval(x) < 16,
            0 <= hexval(y) < 16,
    ;
    assert(upper_hex_digit(hexval(x)) == hex_upper(x));
    assert(upper_hex_digit(hexval(y)) == hex_upper(y));
}

/// A character other than `%` is kept as it is, in front of the decoding of
/// what follows.
pub proof fn law_plain_char_kept(c: char, rest: Seq<char>)
    requires
        c != '%',
    ensures
        pct_decode_spec(seq![c] + rest) == (match pct_decode_spec(rest) {
            None => None,
            Some(r) => Some(seq![c] + r),
        }),
{
    let s = seq![c] + rest;
    assert(s[0] == c);
    lemma_decode_shift(seq![c], rest, 0);
}

/// A `%` not followed by two hexadecimal digits makes the text malformed.
pub proof fn law_bad_escape_rejected(rest: Seq<char>)
    requires
        rest.len() < 2 || !hexdig(rest[0]) || !hexdig(rest[1]),
    ensures
        pct_decode_spec(seq!['%'] + rest) is None,
{
    let s = seq!['%'] + rest;
    assert(s[0] == '%');
    if rest.len() >= 2 {
        assert(s[1] == rest[0] && s[2] == rest[1]);
    }
}

proof fn lemma_split_once_parts(s: Seq<char>, c: char)
    ensures
        split_once_spec(s, c) matches Some((a, b)) ==> a + seq![c] + b == s && !a.contains(c),
        split_once_spec(s, c) is None ==> !s.contains(c),
    decreases s.len(),
{
    if s.len() > 0 {
        let t = s.drop_first();
        lemma_split_once_parts(t, c);
        if s[0] == c {
            assert(Seq::<char>::empty() + seq![c] + t =~= s);
        } else {
            match split_once_spec(t, c) {
                Some((a, b)) => {
                    assert(a + seq![c] + b == t);
                    assert(s =~= seq![s[0]] + t);
                    assert(seq![s[0]] + a + seq![c] + b =~= seq![s[0]] + (a + seq![c] + b));
                    if (seq![s[0]] + a).contains(c) {
                        let k = choose|k: int| 0 <= k < (seq![s[0]] + a).len() && (seq![s[0]] + a)[k] == c;
                        assert(a[k - 1] == c);
                    }
                },
                None => {
                    if s.contains(c) {
                        let k = choose|k: int| 0 <= k < s.len() && s[k] == c;
                        assert(t[k - 1] == c);
                    }
                },
            }
        }
    }
}

/// A part splits at its first `=`: the key is the text before it, holding
/// no `=`, and the value is all the text after it, so key, `=` and value
/// give the part back (`k=a=b` gives the value `a=b`). A part without `=`
/// is all key, with an empty value.
pub proof fn law_raw_pair_first_eq(part: Seq<char>)
    ensures
        part.contains('=') ==> raw_pair(part).0 + seq!['='] + raw_pair(part).1 == part && !raw_pair(part).0.contains('='),
        !part.contains('=') ==> raw_pair(part) == (part, Seq::<char>::empty()),
{
    lemma_split_once_parts(part, '=');
    if !part.contains('=') {
        if split_once_spec(part, '=') is Some {
            let (a, b) = split_once_spec(part, '=').unwrap();
            assert((a + seq!['='] + b)[a.len() as int] == '=');
        }
    }
}

proof fn lemma_split_without_sep(s: Seq<char>, sep: char)
    requires
        !s.contains(sep),
    ensures
        split_seq(s, sep) == seq![s],
    decreases s.len(),
{
    if s.len() > 0 {
        let t = s.drop_last();
        assert(!t.contains(sep)) by {
            if t.contains(sep) {
                let k = choose|k: int| 0 <= k < t.len() && t[k] == sep;
                assert(s[k] == sep);
            }
        }
        lemma_split_without_sep(t, sep);
        assert(s[s.len() - 1] != sep);
        assert(t.push(s.last()) =~= s);
        let r = split_seq(t, sep);
        assert(r == seq![t]);
        assert(r.last() == t);
        assert(r.update(0, t.push(s.last())) =~= seq![s]);
        assert(split_seq(s, sep) == r.update(r.len() - 1, r.last().push(s.last())));
    } else {
        assert(s =~= Seq::<char>::empty());
    }
}

/// A query of one pair `k=v` (no `&`, no NUL, no `=` in the key) normalizes
/// to that one pair, decoded: it is accepted as it is when decoding changes
/// neither key nor value, rewritten for percent-decoding when it changes
/// one of them, and refused when either is malformed.
pub proof fn law_single_pair_query(k: Seq<char>, v: Seq<char>)
    requires
        !k.contains('='),
        !k.contains('&'),
        !v.contains('&'),
        !k.contains('\0'),
        !v.contains('\0'),
    ensures
        normalize_query_spec(k + seq!['='] + v) == (match (pct_decode_spec(k), pct_decode_spec(v)) {
            (Some(dk), Some(dv)) => if dk == k && dv == v {
                NormalizationOutcome::Accept((k + seq!['='] + v, seq![(k, v)]))
            } else {
                NormalizationOutcome::Rewrite {
                    value: (k + seq!['='] + v, seq![(dk, dv)]),
                    reason: RewriteReason::PercentDecodeUnreserved,
                }
            },
            _ => NormalizationOutcome::Reject { reason: RejectReason::InvalidPercentEncoding },
        }),
{
    let q = k + seq!['='] + v;
    assert(q[k.len() as int] == '=');
    assert(!q.contains('\0')) by {
        if q.contains('\0') {
            let i = choose|i: int| 0 <= i < q.len() && q[i] == '\0';
            if i < k.len() {
                assert(k[i] == '\0');
            } else if i > k.len() {
                assert(v[i - k.len() - 1] == '\0');
            }
        }
    }
    assert(!q.contains('&')) by {
        if q.contains('&') {
            let i = choose|i: int| 0 <= i < q.len() && q[i] == '&';
            if i < k.len() {
                assert(k[i] == '&');
            } else if i > k.len() {
                assert(v[i - k.len() - 1] == '&');
            }
        }
    }
    lemma_split_without_sep(q, '&');
    let parts = split_seq(q, '&');
    assert(parts.drop_last() =~= Seq::<Seq<char>>::empty());
    assert(parts.last() == q);
    law_raw_pair_first_eq(q);
    let (rk, rv) = raw_pair(q);
    assert(rk == k && rv == v) by {
        // Both splits put the first `=` at the end of the key.
        if rk.len() < k.len() {
            assert(q[rk.len() as int] == (rk + seq!['='] + rv)[rk.len() as int]);
            assert(k[rk.len() as int] == '=');
        } else if rk.len() > k.len() {
            assert(q[k.len() as int] == (rk + seq!['='] + rv)[k.len() as int]);
            assert(rk[k.len() as int] == '=');
        }
        assert(rk =~= q.take(k.len() as int));
        assert(k =~= q.take(k.len() as int));
        assert(rv =~= q.skip(k.len() as int + 1));
        assert(v =~= q.skip(k.len() as int + 1));
    }
    match (pct_decode_spec(k), pct_decode_spec(v)) {
        (Some(dk), Some(dv)) => {
            let ps = seq![(dk, dv)];
            assert(decode_parts(parts) == Some((ps, dk != k || dv != v))) by {
                assert(decode_parts(parts.drop_last()) == Some((Seq::<(Seq<char>, Seq<char>)>::empty(), false)));
                assert(Seq::<(Seq<char>, Seq<char>)>::empty().push((dk, dv)) =~= ps);
            }
            assert(sort_pairs(ps) == ps) by {
                assert(ps.drop_last() =~= Seq::<(Seq<char>, Seq<char>)>::empty());
                assert(ps.last() == (dk, dv));
                assert(sort_pairs(ps.drop_last()) == Seq::<(Seq<char>, Seq<char>)>::empty());
                assert(sort_pairs(ps) == insert_pair(Seq::<(Seq<char>, Seq<char>)>::empty(), (dk, dv)));
            }
        },
        _ => {
            assert(decode_parts(parts.drop_last()) == Some((Seq::<(Seq<char>, Seq<char>)>::empty(), false)));
        },
    }
}

} // verus!
