//! Splitting and joining character sequences on a separator.
use vstd::prelude::*;

verus! {

/// `str::split(sep)`, as a sequence of pieces (never empty).
pub open spec fn split_seq(s: Seq<char>, sep: char) -> Seq<Seq<char>>
    decreases s.len(),
{
    if s.len() == 0 {
        seq![Seq::<char>::empty()]
    } else {
        let r = split_seq(s.drop_last(), sep);
        if s.last() == sep {
            r.push(Seq::<char>::empty())
        } else {
            r.update(r.len() - 1, r.last().push(s.last()))
        }
    }
}

/// `pieces.join(sep)`.
pub open spec fn join_seq(pieces: Seq<Seq<char>>, sep: char) -> Seq<char>
    decreases pieces.len(),
{
    if pieces.len() == 0 {
        Seq::<char>::empty()
    } else if pieces.len() == 1 {
        pieces[0]
    } else {
        join_seq(pieces.drop_last(), sep).push(sep) + pieces.last()
    }
}

pub proof fn lemma_split_len(s: Seq<char>, sep: char)
    ensures
        split_seq(s, sep).len() >= 1,
    decreases s.len(),
{
    if s.len() > 0 {
        lemma_split_len(s.drop_last(), sep);
    }
}

/// No piece of a split holds the separator.
pub proof fn lemma_split_no_sep(s: Seq<char>, sep: char)
    ensures
        forall|i: int| 0 <= i < split_seq(s, sep).len() ==> !(#[trigger] split_seq(s, sep)[i]).contains(sep),
    decreases s.len(),
{
    if s.len() > 0 {
        lemma_split_no_sep(s.drop_last(), sep);
        lemma_split_len(s.drop_last(), sep);
        let r = split_seq(s.drop_last(), sep);
        assert forall|i: int| 0 <= i < split_seq(s, sep).len() implies !(#[trigger] split_seq(s, sep)[i]).contains(sep) by {
            if s.last() != sep && i == r.len() - 1 {
                let p = r.last().push(s.last());
                if p.contains(sep) {
                    let k = choose|k: int| 0 <= k < p.len() && p[k] == sep;
                    if k < r.last().len() {
                        assert(r.last()[k] == sep);
                        assert(r[i].contains(sep));
                    }
                }
            }
        }
    }
}

/// Joining the pieces of a split gives back the split sequence.
pub proof fn lemma_join_split(s: Seq<char>, sep: char)
    ensures
        join_seq(split_seq(s, sep), sep) == s,
    decreases s.len(),
{
    if s.len() > 0 {
        let t = s.drop_last();
        lemma_join_split(t, sep);
        lemma_split_len(t, sep);
        let r = split_seq(t, sep);
        if s.last() == sep {
            assert(split_seq(s, sep).drop_last() =~= r);
            assert(join_seq(split_seq(s, sep), sep) =~= t.push(sep));
            assert(t.push(sep) =~= s);
        } else {
            lemma_join_last_extend(r, sep, s.last());
            assert(s =~= t.push(s.last()));
        }
    }
}

/// Extending the last piece extends the join.
pub proof fn lemma_join_last_extend(r: Seq<Seq<char>>, sep: char, c: char)
    requires
        r.len() >= 1,
    ensures
        join_seq(r.update(r.len() - 1, r.last().push(c)), sep) == join_seq(r, sep).push(c),
{
    let u = r.update(r.len() - 1, r.last().push(c));
    if r.len() == 1 {
        assert(u[0] == r[0].push(c));
    } else {
        assert(u.drop_last() =~= r.drop_last());
        assert(join_seq(u, sep) == join_seq(r.drop_last(), sep).push(sep) + r.last().push(c));
        assert((join_seq(r.drop_last(), sep).push(sep) + r.last()).push(c) =~= join_seq(r.drop_last(), sep).push(sep) + r.last().push(c));
    }
}

/// Splitting a join of separator-free pieces gives back the pieces.
pub proof fn lemma_split_join(pieces: Seq<Seq<char>>, sep: char)
    requires
        pieces.len() >= 1,
        forall|i: int| 0 <= i < pieces.len() ==> !(#[trigger] pieces[i]).contains(sep),
    ensures
        split_seq(join_seq(pieces, sep), sep) == pieces,
    decreases pieces.len(),
{
    if pieces.len() == 1 {
        lemma_split_no_sep_piece(pieces[0], sep);
        assert(split_seq(pieces[0], sep) =~= pieces);
    } else {
        let init = pieces.drop_last();
        assert forall|i: int| 0 <= i < init.len() implies !(#[trigger] init[i]).contains(sep) by {
            assert(init[i] == pieces[i]);
        }
        lemma_split_join(init, sep);
        let j = join_seq(init, sep);
        lemma_split_append_piece(j.push(sep), pieces.last(), sep);
        lemma_split_len(j, sep);
        assert(j.push(sep).drop_last() =~= j);
        assert(split_seq(j.push(sep), sep) == split_seq(j, sep).push(Seq::<char>::empty()));
        assert(split_seq(join_seq(pieces, sep), sep) =~= pieces);
    }
}

/// A piece without the separator splits into itself.
pub proof fn lemma_split_no_sep_piece(p: Seq<char>, sep: char)
    requires
        !p.contains(sep),
    ensures
        split_seq(p, sep) == seq![p],
    decreases p.len(),
{
    if p.len() > 0 {
        let t = p.drop_last();
        assert(!t.contains(sep)) by {
            if t.contains(sep) {
                let k = choose|k: int| 0 <= k < t.len() && t[k] == sep;
                assert(p[k] == sep);
            }
        }
        lemma_split_no_sep_piece(t, sep);
        assert(p[p.len() - 1] != sep);
        assert(t.push(p.last()) =~= p);
        let r = split_seq(t, sep);
        assert(r.len() == 1 && r[0] == t);
        let u = r.update(0, r[0].push(p.last()));
        assert(u.len() == 1 && u[0] == p);
        assert(u =~= seq![p]);
    } else {
        assert(p =~= Seq::<char>::empty());
        assert(split_seq(p, sep) =~= seq![p]);
    }
}

/// Appending a separator-free piece after a prefix that ends the last piece.
pub proof fn lemma_split_append_piece(pre: Seq<char>, p: Seq<char>, sep: char)
    requires
        !p.contains(sep),
    ensures
        split_seq(pre + p, sep) == split_seq(pre, sep).update(
            split_seq(pre, sep).len() - 1,
            split_seq(pre, sep).last() + p,
        ),
    decreases p.len(),
{
    lemma_split_len(pre, sep);
    if p.len() == 0 {
        assert(pre + p =~= pre);
        let r = split_seq(pre, sep);
        assert(r.last() + p =~= r.last());
        assert(r.update(r.len() - 1, r.last()) =~= r);
    } else {
        let t = p.drop_last();
        assert(!t.contains(sep)) by {
            if t.contains(sep) {
                let k = choose|k: int| 0 <= k < t.len() && t[k] == sep;
                assert(p[k] == sep);
            }
        }
        lemma_split_append_piece(pre, t, sep);
        assert((pre + p).drop_last() =~= pre + t);
        assert((pre + p).last() == p.last());
        assert(p[p.len() - 1] != sep);
        let r = split_seq(pre, sep);
        let r2 = r.update(r.len() - 1, r.last() + t);
        assert(r2.last().push(p.last()) =~= r.last() + p);
        assert(r2.update(r2.len() - 1, r2.last().push(p.last())) =~= r.update(r.len() - 1, r.last() + p));
    }
}

/// The character views of owned pieces.
pub open spec fn pieces_view(v: Seq<Vec<char>>) -> Seq<Seq<char>> {
    v.map_values(|x: Vec<char>| x@)
}

/// Splits `v[start..]` on `sep` into owned pieces.
pub fn split_chars(v: &Vec<char>, start: usize, sep: char) -> (out: Vec<Vec<char>>)
    requires
        start <= v.len(),
    ensures
        pieces_view(out@) == split_seq(v@.skip(start as int), sep),
{
    let mut out: Vec<Vec<char>> = Vec::new();
    let mut cur: Vec<char> = Vec::new();
    let mut i: usize = start;
    proof {
        assert(v@.skip(start as int).take(0) =~= Seq::<char>::empty());
    }
    while i < v.len()
        invariant
            start <= i <= v.len(),
            pieces_view(out@).push(cur@) == split_seq(v@.skip(start as int).take(i - start), sep),
        decreases v.len() - i,
    {
        let ghost s_prev = v@.skip(start as int).take(i - start);
        let ghost s_next = v@.skip(start as int).take(i + 1 - start);
        assert(s_next.drop_last() =~= s_prev);
        assert(s_next.last() == v@[i as int]);
        proof {
            lemma_split_len(s_prev, sep);
        }
        if v[i] == sep {
            let ghost old_out = pieces_view(out@);
            let ghost fin = cur@;
            let finished = cur;
            out.push(finished);
            cur = Vec::new();
            assert(pieces_view(out@) =~= old_out.push(fin));
        } else {
            let ghost old_out = pieces_view(out@);
            cur.push(v[i]);
            assert(old_out.push(cur@) =~= split_seq(s_prev, sep).update(split_seq(s_prev, sep).len() - 1, split_seq(s_prev, sep).last().push(v@[i as int])));
        }
        i = i + 1;
    }
    assert(v@.skip(start as int).take(v.len() - start) =~= v@.skip(start as int));
    let ghost before = pieces_view(out@);
    let ghost last = cur@;
    out.push(cur);
    assert(pieces_view(out@) =~= before.push(last));
    out
}

} // verus!

verus! {

/// Pieces of a split avoid any character the input avoids.
pub proof fn lemma_split_avoids(s: Seq<char>, sep: char, c: char)
    requires
        !s.contains(c),
    ensures
        forall|i: int| 0 <= i < split_seq(s, sep).len() ==> !(#[trigger] split_seq(s, sep)[i]).contains(c),
    decreases s.len(),
{
    if s.len() > 0 {
        let t = s.drop_last();
        assert(!t.contains(c)) by {
            if t.contains(c) {
                let k = choose|k: int| 0 <= k < t.len() && t[k] == c;
                assert(s[k] == c);
            }
        }
        lemma_split_avoids(t, sep, c);
        lemma_split_len(t, sep);
        let r = split_seq(t, sep);
        assert forall|i: int| 0 <= i < split_seq(s, sep).len() implies !(#[trigger] split_seq(s, sep)[i]).contains(c) by {
            if s.last() != sep && i == r.len() - 1 {
                let p = r.last().push(s.last());
                if p.contains(c) {
                    let k = choose|k: int| 0 <= k < p.len() && p[k] == c;
                    if k < r.last().len() {
                        assert(r.last()[k] == c);
                        assert(r[i].contains(c));
                    } else {
                        assert(s[s.len() - 1] == c);
                    }
                }
            }
        }
    }
}

/// A join avoids any character that the pieces and the separator avoid.
pub proof fn lemma_join_avoids(pieces: Seq<Seq<char>>, sep: char, c: char)
    requires
        c != sep,
        forall|i: int| 0 <= i < pieces.len() ==> !(#[trigger] pieces[i]).contains(c),
    ensures
        !join_seq(pieces, sep).contains(c),
    decreases pieces.len(),
{
    if pieces.len() == 1 {
        assert(!pieces[0].contains(c));
    } else if pieces.len() > 1 {
        let init = pieces.drop_last();
        assert forall|i: int| 0 <= i < init.len() implies !(#[trigger] init[i]).contains(c) by {
            assert(init[i] == pieces[i]);
        }
        lemma_join_avoids(init, sep, c);
        let j = join_seq(init, sep);
        let full = j.push(sep) + pieces.last();
        assert(!pieces[pieces.len() - 1].contains(c));
        if full.contains(c) {
            let k = choose|k: int| 0 <= k < full.len() && full[k] == c;
            if k < j.len() {
                assert(j[k] == c);
            } else if k > j.len() {
                assert(pieces.last()[k - j.len() - 1] == c);
            }
        }
    }
}

/// A join of pieces whose last piece is non-empty ends with that piece's last character.
pub proof fn lemma_join_last(pieces: Seq<Seq<char>>, sep: char)
    requires
        pieces.len() >= 1,
        pieces.last().len() > 0,
    ensures
        join_seq(pieces, sep).len() > 0,
        join_seq(pieces, sep).last() == pieces.last().last(),
{
    if pieces.len() > 1 {
        let j = join_seq(pieces.drop_last(), sep);
        let full = j.push(sep) + pieces.last();
        assert(full.last() == pieces.last().last());
    }
}

} // verus!
