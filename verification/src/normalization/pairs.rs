//! The decoded pairs of a query, kept in a small vector that holds a few
//! pairs inline.
use vstd::prelude::*;
use smallvec::SmallVec;

verus! {

/// The decoded pairs of a query, in order.
#[verifier::external_body]
#[derive(Debug, Default)]
pub struct QueryPairs {
    inner: SmallVec<[(String, String); 4]>,
}

/// The pairs a `QueryPairs` holds, in order.
pub uninterp spec fn pairs_held(p: QueryPairs) -> Seq<(String, String)>;

/// `SmallVec::new`: no pairs.
#[verifier::external_body]
pub(crate) fn pairs_new() -> (r: QueryPairs)
    ensures
        pairs_held(r).len() == 0,
{
    QueryPairs { inner: SmallVec::new() }
}

/// `SmallVec::push`: the pair is appended.
#[verifier::external_body]
pub(crate) fn pairs_push(p: &mut QueryPairs, x: (String, String))
    ensures
        pairs_held(*final(p)) == pairs_held(*old(p)).push(x),
{
    p.inner.push(x);
}

/// `SmallVec::from_vec`: the vector's pairs, in order.
#[verifier::external_body]
pub(crate) fn pairs_from_vec(v: Vec<(String, String)>) -> (r: QueryPairs)
    ensures
        pairs_held(r) == v@,
{
    QueryPairs { inner: SmallVec::from_vec(v) }
}

/// `SmallVec::as_slice`: the pairs, in order.
#[verifier::external_body]
pub(crate) fn pairs_as_slice(p: &QueryPairs) -> (r: &[(String, String)])
    ensures
        r@ == pairs_held(*p),
{
    p.inner.as_slice()
}

} // verus!
