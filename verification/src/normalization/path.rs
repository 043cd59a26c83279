//! Request path normalization (RFC 3986 dot-segment removal, slash collapsing).
use vstd::prelude::*;
use crate::normalization::segments::{
    join_seq, lemma_join_avoids, lemma_join_last, lemma_join_split, lemma_split_avoids,
    lemma_split_join, lemma_split_len, lemma_split_no_sep, pieces_view, split_chars, split_seq,
};
use crate::normalization::types::{NormalizationOutcome, RejectReason, RewriteReason};
use crate::text::{chars_contain, push_char, str_chars, string_from_chars};

verus! {

/// A request path in canonical form.
#[derive(Debug, Default)]
pub struct NormalizedPath(pub String);

impl View for NormalizedPath {
    type V = Seq<char>;

    open spec fn view(&self) -> Seq<char> {
        self.0@
    }
}

impl NormalizedPath {
    /// The path as a string slice.
    pub fn as_str(&self) -> (s: &str)
        ensures
            s@ == self@,
    {
        self.0.as_str()
    }
}

/// The segment `.`.
pub open spec fn dot_seg() -> Seq<char> {
    seq!['.']
}

/// The segment `..`.
pub open spec fn dot_dot_seg() -> Seq<char> {
    seq!['.', '.']
}

/// Number of leading occurrences of `c`.
pub open spec fn leading_count(s: Seq<char>, c: char) -> nat
    decreases s.len(),
{
    if s.len() > 0 && s[0] == c {
        1 + leading_count(s.drop_first(), c)
    } else {
        0
    }
}

pub proof fn lemma_leading_count_unique(s: Seq<char>, c: char, k: int)
    requires
        0 <= k <= s.len(),
        forall|i: int| 0 <= i < k ==> #[trigger] s[i] == c,
        k < s.len() ==> s[k] != c,
    ensures
        leading_count(s, c) == k,
    decreases s.len(),
{
    if k > 0 {
        assert forall|i: int| 0 <= i < k - 1 implies #[trigger] s.drop_first()[i] == c by {
            assert(s.drop_first()[i] == s[i + 1]);
        }
        if k - 1 < s.drop_first().len() {
            assert(s.drop_first()[k - 1] == s[k]);
        }
        lemma_leading_count_unique(s.drop_first(), c, k - 1);
    } else if s.len() > 0 {
        assert(s[0] != c);
    }
}

pub proof fn lemma_leading_count_bound(s: Seq<char>, c: char)
    ensures
        leading_count(s, c) <= s.len(),
    decreases s.len(),
{
    if s.len() > 0 && s[0] == c {
        lemma_leading_count_bound(s.drop_first(), c);
    }
}

/// State of the dot-segment walk: kept segments, whether anything was
/// rewritten, whether the walk escaped above the root.
pub type PathWalk = (Seq<Seq<char>>, bool, bool);

/// One segment of the walk.
pub open spec fn path_step(st: PathWalk, seg: Seq<char>, body_nonempty: bool) -> PathWalk {
    let (stack, rw, rej) = st;
    if rej {
        st
    } else if seg.len() == 0 {
        (stack, rw || body_nonempty, false)
    } else if seg == dot_seg() {
        (stack, true, false)
    } else if seg == dot_dot_seg() {
        if stack.len() == 0 {
            (stack, rw, true)
        } else {
            (stack.drop_last(), true, false)
        }
    } else {
        (stack.push(seg), rw, false)
    }
}

/// The walk over all segments.
pub open spec fn path_walk(segs: Seq<Seq<char>>, init_rw: bool, body_nonempty: bool) -> PathWalk
    decreases segs.len(),
{
    if segs.len() == 0 {
        (Seq::<Seq<char>>::empty(), init_rw, false)
    } else {
        path_step(path_walk(segs.drop_last(), init_rw, body_nonempty), segs.last(), body_nonempty)
    }
}

/// What `normalize_path` decides for a path.
pub open spec fn normalize_path_spec(p: Seq<char>) -> NormalizationOutcome<Seq<char>> {
    if p.contains('\0') {
        NormalizationOutcome::Reject { reason: RejectReason::InvalidUtf8 }
    } else if p.len() == 0 {
        NormalizationOutcome::Rewrite { value: seq!['/'], reason: RewriteReason::PathCanonicalization }
    } else if p == seq!['/'] {
        NormalizationOutcome::Accept(seq!['/'])
    } else {
        let init_rw = p[0] != '/' || (p.len() >= 2 && p[1] == '/');
        let body = p.skip(leading_count(p, '/') as int);
        let (stack, rw, rej) = path_walk(split_seq(body, '/'), init_rw, body.len() > 0);
        if rej {
            NormalizationOutcome::Reject { reason: RejectReason::PathTraversal }
        } else {
            let n = seq!['/'] + join_seq(stack, '/');
            let trailing = n.len() > 1 && n.last() == '/';
            let n2 = if trailing { n.drop_last() } else { n };
            if rw || trailing {
                NormalizationOutcome::Rewrite { value: n2, reason: RewriteReason::PathCanonicalization }
            } else {
                NormalizationOutcome::Accept(n2)
            }
        }
    }
}

/// The character-level view of a path outcome.
pub open spec fn path_outcome_view(o: NormalizationOutcome<NormalizedPath>) -> NormalizationOutcome<Seq<char>> {
    match o {
        NormalizationOutcome::Accept(p) => NormalizationOutcome::Accept(p@),
        NormalizationOutcome::Rewrite { value, reason } => NormalizationOutcome::Rewrite { value: value@, reason },
        NormalizationOutcome::Reject { reason } => NormalizationOutcome::Reject { reason },
    }
}

fn is_dot(seg: &Vec<char>) -> (b: bool)
    ensures
        b == (seg@ == dot_seg()),
{
    let r = seg.len() == 1 && seg[0] == '.';
    proof {
        if r {
            assert(seg@ =~= dot_seg());
        }
    }
    r
}

fn is_dot_dot(seg: &Vec<char>) -> (b: bool)
    ensures
        b == (seg@ == dot_dot_seg()),
{
    let r = seg.len() == 2 && seg[0] == '.' && seg[1] == '.';
    proof {
        if r {
            assert(seg@ =~= dot_dot_seg());
        }
    }
    r
}

/// Writes `pieces.join(sep)` after the existing characters of `out`.
fn push_joined(out: &mut Vec<char>, pieces: &Vec<Vec<char>>, sep: char)
    ensures
        final(out)@ == old(out)@ + join_seq(pieces_view(pieces@), sep),
{
    let ghost start = old(out)@;
    let mut i: usize = 0;
    while i < pieces.len()
        invariant
            i <= pieces.len(),
            out@ == start + join_seq(pieces_view(pieces@).take(i as int), sep),
        decreases pieces.len() - i,
    {
        let ghost before = out@;
        if i > 0 {
            out.push(sep);
        }
        let mut j: usize = 0;
        let ghost mid = out@;
        while j < pieces[i].len()
            invariant
                i < pieces.len(),
                j <= pieces[i as int].len(),
                out@ == mid + pieces[i as int]@.take(j as int),
            decreases pieces[i as int].len() - j,
        {
            out.push(pieces[i][j]);
            j = j + 1;
            assert(pieces[i as int]@.take(j as int) =~= pieces[i as int]@.take((j - 1) as int).push(pieces[i as int]@[j - 1]));
        }
        assert(pieces[i as int]@.take(j as int) =~= pieces[i as int]@);
        proof {
            let pv = pieces_view(pieces@);
            let t1 = pv.take(i + 1);
            assert(t1.drop_last() =~= pv.take(i as int));
            assert(t1.last() == pieces[i as int]@);
            if i == 0 {
                assert(t1.len() == 1);
                assert(out@ =~= start + join_seq(t1, sep));
            } else {
                assert(out@ =~= start + join_seq(t1, sep));
            }
        }
        i = i + 1;
    }
    assert(pieces_view(pieces@).take(pieces.len() as int) =~= pieces_view(pieces@));
}

/// Normalizes an HTTP request path (RFC 3986 / RFC 9110).
///
/// Paths get a leading `/`, `.` and `..` segments are removed, repeated
/// slashes collapse, and a trailing slash is dropped except on the root.
/// A path with a NUL is rejected, and so is a `..` that would climb above
/// the root.
pub fn normalize_path(path: &str) -> (r: NormalizationOutcome<NormalizedPath>)
    ensures
        path_outcome_view(r) == normalize_path_spec(path@),
        path_outcome_view(r).value_spec() matches Some(v) ==> is_canonical_path(v),
        path_outcome_view(r) matches NormalizationOutcome::Accept(v) ==> v == path@,
{
    proof {
        lemma_normalize_path_canonical(path@);
        lemma_accept_is_identity(path@);
    }
    let v = str_chars(path);
    if chars_contain(&v, '\0') {
        return NormalizationOutcome::Reject { reason: RejectReason::InvalidUtf8 };
    }
    if v.len() == 0 {
        let mut root = String::new();
        push_char(&mut root, '/');
        proof {
            assert(root@ =~= seq!['/']);
        }
        return NormalizationOutcome::Rewrite {
            value: NormalizedPath(root),
            reason: RewriteReason::PathCanonicalization,
        };
    }
    if v.len() == 1 && v[0] == '/' {
        let mut root = String::new();
        push_char(&mut root, '/');
        proof {
            assert(root@ =~= seq!['/']);
            assert(path@ =~= seq!['/']);
        }
        return NormalizationOutcome::Accept(NormalizedPath(root));
    }
    proof {
        assert(path@ != seq!['/']) by {
            if path@ == seq!['/'] {
                assert(v@[0] == '/');
            }
        }
    }
    let mut rewritten = v[0] != '/' || (v.len() >= 2 && v[1] == '/');
    let mut start: usize = 0;
    while start < v.len() && v[start] == '/'
        invariant
            start <= v.len(),
            forall|i: int| 0 <= i < start ==> #[trigger] v@[i] == '/',
        decreases v.len() - start,
    {
        start = start + 1;
    }
    proof {
        lemma_leading_count_unique(v@, '/', start as int);
    }
    let body_nonempty = start < v.len();
    let segs = split_chars(&v, start, '/');
    let ghost init_rw = rewritten;
    let ghost segs_v = pieces_view(segs@);
    let mut stack: Vec<Vec<char>> = Vec::new();
    let mut i: usize = 0;
    while i < segs.len()
        invariant
            i <= segs.len(),
            segs_v == pieces_view(segs@),
            segs_v == split_seq(path@.skip(leading_count(path@, '/') as int), '/'),
            !path@.contains('\0'),
            path@.len() > 0,
            path@ != seq!['/'],
            init_rw == (path@[0] != '/' || (path@.len() >= 2 && path@[1] == '/')),
            body_nonempty == (path@.skip(leading_count(path@, '/') as int).len() > 0),
            path_walk(segs_v.take(i as int), init_rw, body_nonempty) == (pieces_view(stack@), rewritten, false),
        decreases segs.len() - i,
    {
        let ghost prev = (pieces_view(stack@), rewritten, false);
        proof {
            let t = segs_v.take(i + 1);
            assert(t.drop_last() =~= segs_v.take(i as int));
            assert(t.last() == segs[i as int]@);
        }
        if segs[i].len() == 0 {
            if body_nonempty {
                rewritten = true;
            }
        } else if is_dot(&segs[i]) {
            rewritten = true;
        } else if is_dot_dot(&segs[i]) {
            if stack.len() == 0 {
                proof {
                    assert(path_walk(segs_v.take(i + 1), init_rw, body_nonempty).2);
                    lemma_walk_reject_sticky(segs_v, init_rw, body_nonempty, i as int + 1);
                    assert(segs_v.take(segs_v.len() as int) =~= segs_v);
                }
                return NormalizationOutcome::Reject { reason: RejectReason::PathTraversal };
            }
            let ghost before = pieces_view(stack@);
            stack.pop();
            assert(pieces_view(stack@) =~= before.drop_last());
            rewritten = true;
        } else {
            let ghost before = pieces_view(stack@);
            let seg = segs[i].clone();
            let ghost sv = seg@;
            stack.push(seg);
            assert(pieces_view(stack@) =~= before.push(sv));
        }
        i = i + 1;
    }
    assert(segs_v.take(segs.len() as int) =~= segs_v);
    let mut out: Vec<char> = Vec::new();
    out.push('/');
    push_joined(&mut out, &stack, '/');
    assert(out@ =~= seq!['/'] + join_seq(pieces_view(stack@), '/'));
    if out.len() > 1 && out[out.len() - 1] == '/' {
        out.pop();
        rewritten = true;
    }
    let value = NormalizedPath(string_from_chars(&out));
    if rewritten {
        NormalizationOutcome::Rewrite { value, reason: RewriteReason::PathCanonicalization }
    } else {
        NormalizationOutcome::Accept(value)
    }
}

/// Once the walk escapes above the root it stays rejected.
pub proof fn lemma_walk_reject_sticky(segs: Seq<Seq<char>>, init_rw: bool, body_nonempty: bool, k: int)
    requires
        0 <= k <= segs.len(),
        path_walk(segs.take(k), init_rw, body_nonempty).2,
    ensures
        path_walk(segs, init_rw, body_nonempty).2,
    decreases segs.len() - k,
{
    if k < segs.len() {
        let t = segs.take(k + 1);
        assert(t.drop_last() =~= segs.take(k));
        lemma_walk_reject_sticky(segs, init_rw, body_nonempty, k + 1);
    } else {
        assert(segs.take(k) =~= segs);
    }
}


/// A segment that survives normalization: non-empty, neither `.` nor `..`,
/// and free of `/` and NUL.
pub open spec fn is_normal_segment(s: Seq<char>) -> bool {
    &&& s.len() > 0
    &&& s != dot_seg()
    &&& s != dot_dot_seg()
    &&& !s.contains('/')
    &&& !s.contains('\0')
}

/// A path in canonical form: the root, or `/` followed by normal segments
/// separated by single slashes.
pub open spec fn is_canonical_path(p: Seq<char>) -> bool {
    ||| p == seq!['/']
    ||| {
        &&& p.len() > 1
        &&& p[0] == '/'
        &&& forall|i: int|
            0 <= i < split_seq(p.skip(1), '/').len() ==> is_normal_segment(
                #[trigger] split_seq(p.skip(1), '/')[i],
            )
    }
}

/// The walk keeps only normal segments.
pub proof fn lemma_walk_stack_normal(segs: Seq<Seq<char>>, init_rw: bool, body_nonempty: bool)
    requires
        forall|i: int| 0 <= i < segs.len() ==> !(#[trigger] segs[i]).contains('/') && !segs[i].contains('\0'),
    ensures
        forall|i: int|
            0 <= i < path_walk(segs, init_rw, body_nonempty).0.len() ==> is_normal_segment(
                #[trigger] path_walk(segs, init_rw, body_nonempty).0[i],
            ),
    decreases segs.len(),
{
    if segs.len() > 0 {
        let init = segs.drop_last();
        assert forall|i: int| 0 <= i < init.len() implies !(#[trigger] init[i]).contains('/') && !init[i].contains('\0') by {
            assert(init[i] == segs[i]);
        }
        lemma_walk_stack_normal(init, init_rw, body_nonempty);
        assert(!segs[segs.len() - 1].contains('/'));
        assert(!segs[segs.len() - 1].contains('\0'));
        let prev = path_walk(init, init_rw, body_nonempty);
        let cur = path_walk(segs, init_rw, body_nonempty);
        assert forall|i: int| 0 <= i < cur.0.len() implies is_normal_segment(#[trigger] cur.0[i]) by {
            if i < prev.0.len() {
                assert(cur.0[i] == prev.0[i]);
            } else {
                assert(cur.0[i] == segs.last());
            }
        }
    }
}

/// A walk over normal segments keeps them all and changes nothing.
pub proof fn lemma_walk_all_normal(segs: Seq<Seq<char>>, init_rw: bool, body_nonempty: bool)
    requires
        forall|i: int| 0 <= i < segs.len() ==> is_normal_segment(#[trigger] segs[i]),
    ensures
        path_walk(segs, init_rw, body_nonempty) == (segs, init_rw, false),
    decreases segs.len(),
{
    if segs.len() > 0 {
        let init = segs.drop_last();
        assert forall|i: int| 0 <= i < init.len() implies is_normal_segment(#[trigger] init[i]) by {
            assert(init[i] == segs[i]);
        }
        lemma_walk_all_normal(init, init_rw, body_nonempty);
        assert(is_normal_segment(segs[segs.len() - 1]));
        assert(init.push(segs.last()) =~= segs);
    }
}

/// The rewrite flag never goes back to false.
pub proof fn lemma_walk_rw_monotone(segs: Seq<Seq<char>>, init_rw: bool, body_nonempty: bool)
    ensures
        init_rw ==> path_walk(segs, init_rw, body_nonempty).1,
    decreases segs.len(),
{
    if segs.len() > 0 {
        lemma_walk_rw_monotone(segs.drop_last(), init_rw, body_nonempty);
    }
}

/// A walk over a non-empty body that neither rewrote nor rejected kept every segment.
pub proof fn lemma_walk_unchanged(segs: Seq<Seq<char>>, init_rw: bool)
    requires
        !path_walk(segs, init_rw, true).1,
        !path_walk(segs, init_rw, true).2,
    ensures
        path_walk(segs, init_rw, true).0 == segs,
        !init_rw,
    decreases segs.len(),
{
    if segs.len() > 0 {
        let init = segs.drop_last();
        let prev = path_walk(init, init_rw, true);
        if prev.2 {
            assert(path_walk(segs, init_rw, true).2);
        }
        if prev.1 {
            assert(path_walk(segs, init_rw, true).1);
        }
        lemma_walk_unchanged(init, init_rw);
        assert(init.push(segs.last()) =~= segs);
    }
}

/// The first piece of a join is its prefix.
pub proof fn lemma_join_first(pieces: Seq<Seq<char>>, sep: char)
    requires
        pieces.len() >= 1,
    ensures
        join_seq(pieces, sep).len() >= pieces[0].len(),
        forall|k: int| 0 <= k < pieces[0].len() ==> join_seq(pieces, sep)[k] == pieces[0][k],
    decreases pieces.len(),
{
    if pieces.len() > 1 {
        let init = pieces.drop_last();
        lemma_join_first(init, sep);
        assert(init[0] == pieces[0]);
    }
}

/// Every value `normalize_path` produces is canonical.
pub proof fn lemma_normalize_path_canonical(p: Seq<char>)
    ensures
        normalize_path_spec(p).value_spec() matches Some(v) ==> is_canonical_path(v),
{
    if !p.contains('\0') && p.len() > 0 && p != seq!['/'] {
        let init_rw = p[0] != '/' || (p.len() >= 2 && p[1] == '/');
        let body = p.skip(leading_count(p, '/') as int);
        let segs = split_seq(body, '/');
        lemma_leading_count_bound(p, '/');
        assert(!body.contains('\0')) by {
            if body.contains('\0') {
                let k = choose|k: int| 0 <= k < body.len() && body[k] == '\0';
                assert(p[k + leading_count(p, '/')] == '\0');
            }
        }
        lemma_split_no_sep(body, '/');
        lemma_split_avoids(body, '/', '\0');
        lemma_walk_stack_normal(segs, init_rw, body.len() > 0);
        let (stack, rw, rej) = path_walk(segs, init_rw, body.len() > 0);
        if !rej {
            let n = seq!['/'] + join_seq(stack, '/');
            if stack.len() == 0 {
                assert(n =~= seq!['/']);
            } else {
                assert(is_normal_segment(stack[stack.len() - 1]));
                lemma_join_last(stack, '/');
                assert(n.last() == stack.last().last());
                assert(stack.last().contains(stack.last().last()));
                assert(n.skip(1) =~= join_seq(stack, '/'));
                lemma_split_join(stack, '/');
            }
        }
    }
}

/// A canonical path is accepted unchanged.
pub proof fn lemma_canonical_accepted(p: Seq<char>)
    requires
        is_canonical_path(p),
    ensures
        normalize_path_spec(p) == NormalizationOutcome::<Seq<char>>::Accept(p),
{
    if p != seq!['/'] {
        let body = p.skip(1);
        let segs = split_seq(body, '/');
        lemma_split_len(body, '/');
        lemma_join_split(body, '/');
        lemma_join_first(segs, '/');
        assert(is_normal_segment(segs[0]));
        assert(segs[0].contains(segs[0][0]));
        assert(body[0] == segs[0][0]);
        assert(p[1] == body[0]);
        assert(p[1] != '/');
        lemma_leading_count_unique(p, '/', 1);
        lemma_walk_all_normal(segs, false, true);
        assert forall|i: int| 0 <= i < segs.len() implies !(#[trigger] segs[i]).contains('\0') by {
            assert(is_normal_segment(segs[i]));
        }
        lemma_join_avoids(segs, '/', '\0');
        assert(!p.contains('\0')) by {
            if p.contains('\0') {
                let k = choose|k: int| 0 <= k < p.len() && p[k] == '\0';
                assert(k > 0);
                assert(body[k - 1] == '\0');
            }
        }
        let n = seq!['/'] + join_seq(segs, '/');
        assert(n =~= p);
        assert(is_normal_segment(segs[segs.len() - 1]));
        lemma_join_last(segs, '/');
        assert(segs.last().contains(segs.last().last()));
    }
}

/// `Accept` only ever hands back the input itself.
pub proof fn lemma_accept_is_identity(p: Seq<char>)
    ensures
        normalize_path_spec(p) matches NormalizationOutcome::Accept(v) ==> v == p,
{
    if !p.contains('\0') && p.len() > 0 && p != seq!['/'] {
        let init_rw = p[0] != '/' || (p.len() >= 2 && p[1] == '/');
        lemma_leading_count_bound(p, '/');
        lemma_walk_rw_monotone(split_seq(p.skip(leading_count(p, '/') as int), '/'), init_rw, p.skip(leading_count(p, '/') as int).len() > 0);
        if !init_rw {
            assert(p.len() >= 2) by {
                if p.len() == 1 {
                    assert(p =~= seq!['/']);
                }
            }
            lemma_leading_count_unique(p, '/', 1);
            let body = p.skip(1);
            let segs = split_seq(body, '/');
            let (stack, rw, rej) = path_walk(segs, init_rw, true);
            if !rw && !rej {
                lemma_walk_unchanged(segs, init_rw);
                lemma_join_split(body, '/');
                assert(seq!['/'] + join_seq(stack, '/') =~= p);
            }
        }
    }
}

/// Normalizing a normalized path changes nothing: whatever `normalize_path`
/// produces, it accepts as-is.
pub proof fn law_normalize_path_idempotent(p: Seq<char>)
    ensures
        normalize_path_spec(p).value_spec() matches Some(v) ==> normalize_path_spec(v)
            == NormalizationOutcome::<Seq<char>>::Accept(v),
{
    lemma_normalize_path_canonical(p);
    if let Some(v) = normalize_path_spec(p).value_spec() {
        lemma_canonical_accepted(v);
    }
}

} // verus!
