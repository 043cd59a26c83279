//! Building the routers of the listeners from the configured routes.
use vstd::prelude::*;
use crate::route::{Router, RouterError, RouteEntry, route_added, route_added_at};
use crate::text::str_eq;

verus! {

/// A configured route: the listener it belongs to, its hosts, its path
/// prefix and what it leads to.
#[derive(Debug)]
pub struct RouteConfigEntry<R> {
    pub listener: String,
    pub hosts: Vec<String>,
    pub path: String,
    pub target: R,
}

/// A route path starts with `/`.
pub open spec fn route_path_ok(p: Seq<char>) -> bool {
    p.len() > 0 && p[0] == '/'
}

/// Route `i` is refused: its path does not start with `/`, or an earlier
/// route of the same listener has the same path.
pub open spec fn route_refused<R>(routes: Seq<RouteConfigEntry<R>>, i: int) -> bool {
    ||| !route_path_ok(routes[i].path@)
    ||| exists|k: int| 0 <= k < i && (#[trigger] routes[k]).listener@ == routes[i].listener@
            && routes[k].path@ == routes[i].path@
}

/// The number of routes of a listener.
pub open spec fn routes_of<R>(routes: Seq<RouteConfigEntry<R>>, l: Seq<char>) -> nat
    decreases routes.len(),
{
    if routes.len() == 0 {
        0
    } else {
        routes_of(routes.drop_last(), l) + (if routes.last().listener@ == l { 1nat } else { 0nat })
    }
}

/// The error for a refused route: a path without a leading `/`, or a
/// duplicate path.
pub open spec fn refusal_of<R>(route: RouteConfigEntry<R>, e: RouterError) -> bool {
    if !route_path_ok(route.path@) {
        e matches RouterError::InvalidRoutePath(p) && p@ == route.path@
    } else {
        e matches RouterError::DuplicateRoutePath(p) && p@ == route.path@
    }
}

/// The routers have distinct listener names.
#[verifier::opaque]
pub open spec fn names_distinct<R>(out: Seq<(String, Router<R>)>) -> bool {
    forall|a: int, b: int| 0 <= a < b < out.len() ==> (#[trigger] out[a]).0@ != (#[trigger] out[b]).0@
}

/// Every router is well formed.
#[verifier::opaque]
pub open spec fn routers_wf<R>(out: Seq<(String, Router<R>)>) -> bool {
    forall|k: int| 0 <= k < out.len() ==> (#[trigger] out[k]).1.wf()
}

/// Every router holds one route per route of its listener.
#[verifier::opaque]
pub open spec fn counts_match<R>(done: Seq<RouteConfigEntry<R>>, out: Seq<(String, Router<R>)>) -> bool {
    forall|k: int| 0 <= k < out.len() ==> (#[trigger] out[k]).1.routes_spec().len() == routes_of(done, out[k].0@)
}

/// Every route has a router for its listener, holding its path.
#[verifier::opaque]
pub open spec fn routes_present<R>(done: Seq<RouteConfigEntry<R>>, out: Seq<(String, Router<R>)>) -> bool {
    forall|m: int| 0 <= m < done.len() ==> exists|k: int| 0 <= k < out.len()
        && (#[trigger] out[k]).0@ == (#[trigger] done[m]).listener@
        && exists|j: int| 0 <= j < out[k].1.routes_spec().len() && (#[trigger] out[k].1.routes_spec()[j]).path@ == done[m].path@
}

/// The `j`-th path of router `k` is the path of a route of its listener.
pub open spec fn path_sourced_at<R>(done: Seq<RouteConfigEntry<R>>, out: Seq<(String, Router<R>)>, k: int, j: int) -> bool {
    exists|m: int| 0 <= m < done.len() && (#[trigger] done[m]).listener@ == out[k].0@
        && done[m].path@ == out[k].1.routes_spec()[j].path@
}

/// Every path a router holds is the path of a route of its listener.
#[verifier::opaque]
pub open spec fn paths_sourced<R>(done: Seq<RouteConfigEntry<R>>, out: Seq<(String, Router<R>)>) -> bool {
    forall|k: int, j: int| 0 <= k < out.len() && 0 <= j < out[k].1.routes_spec().len() ==>
        #[trigger] path_sourced_at(done, out, k, j)
}

/// Every router belongs to the listener of some route.
#[verifier::opaque]
pub open spec fn listeners_sourced<R>(done: Seq<RouteConfigEntry<R>>, out: Seq<(String, Router<R>)>) -> bool {
    forall|k: int| 0 <= k < out.len() ==> exists|m: int| 0 <= m < done.len() && (#[trigger] done[m]).listener@ == (#[trigger] out[k]).0@
}

/// What the routers built from the first routes hold: one router per
/// listener, under distinct names, each well formed; a router holds
/// exactly the paths of its listener's routes, one route each; every
/// listener of the routes has a router and every router a listener.
pub open spec fn routers_built<R>(done: Seq<RouteConfigEntry<R>>, out: Seq<(String, Router<R>)>) -> bool {
    &&& names_distinct(out)
    &&& routers_wf(out)
    &&& counts_match(done, out)
    &&& routes_present(done, out)
    &&& paths_sourced(done, out)
    &&& listeners_sourced(done, out)
}

/// Builds one router per listener, listeners in the order they first
/// appear, each route added to its listener's router in order. The first
/// refused route ends the build with its error.
#[verifier::loop_isolation(false)]
pub fn build_runtime_routers<R>(routes: Vec<RouteConfigEntry<R>>) -> (r: Result<Vec<(String, Router<R>)>, RouterError>)
    ensures
        match r {
            Ok(out) => (forall|i: int| 0 <= i < routes@.len() ==> !route_refused(routes@, i))
                && routers_built(routes@, out@),
            Err(e) => exists|i: int| 0 <= i < routes@.len() && route_refused(routes@, i)
                && (forall|k: int| 0 <= k < i ==> !route_refused(routes@, k))
                && refusal_of(routes@[i], e),
        },
{
    let ghost all = routes@;
    let mut out: Vec<(String, Router<R>)> = Vec::new();
    let mut rest = routes;
    let ghost mut n: int = 0;
    assert(all.skip(0) =~= all);
    proof {
        lemma_built_empty(all.take(0), out@);
    }
    while rest.len() > 0
        invariant
            0 <= n <= all.len(),
            rest@ == all.skip(n),
            forall|m: int| 0 <= m < n ==> !route_refused(all, m),
            routers_built(all.take(n), out@),
        decreases rest.len(),
    {
        let ghost done = all.take(n);
        let entry = rest.remove(0);
        assert(rest@ =~= all.skip(n + 1));
        assert(entry == all[n]);
        let ghost l = entry.listener@;
        let ghost path = entry.path@;
        let mut k: usize = 0;
        while k < out.len() && !str_eq(out[k].0.as_str(), entry.listener.as_str())
            invariant
                k <= out.len(),
                forall|q: int| 0 <= q < k ==> (#[trigger] out@[q]).0@ != entry.listener@,
            decreases out.len() - k,
        {
            k = k + 1;
        }
        let ghost out0 = out@;
        if k == out.len() {
            proof {
                lemma_no_router_no_routes(all, n, out0);
            }
            let mut router: Router<R> = Router::new();
            let ghost before = router.routes_spec();
            match router.add_route(entry.hosts, entry.path.as_str(), entry.target) {
                Err(e) => {
                    assert(route_refused(all, n));
                    assert(refusal_of(all[n], e));
                    assert(exists|i: int| 0 <= i < all.len() && route_refused(all, i)
                        && (forall|q: int| 0 <= q < i ==> !route_refused(all, q))
                        && refusal_of(all[i], e));
                    return Err(e);
                },
                Ok(()) => {
                    out.push((entry.listener, router));
                    proof {
                        assert(!route_refused(all, n));
                        lemma_step(all, n, out0, out@, out0.len() as int, before);
                        n = n + 1;
                    }
                },
            }
        } else {
            assert(out0[k as int].1.wf()) by {
                reveal(routers_wf);
            }
            let (name, mut router) = out.remove(k);
            let ghost before = router.routes_spec();
            assert(out0[k as int].1.routes_spec() == before);
            assert(name@ == l);
            proof {
                lemma_same_path_in_router(all, n, out0, k as int);
            }
            match router.add_route(entry.hosts, entry.path.as_str(), entry.target) {
                Err(e) => {
                    assert(route_refused(all, n));
                    assert(refusal_of(all[n], e));
                    assert(exists|i: int| 0 <= i < all.len() && route_refused(all, i)
                        && (forall|q: int| 0 <= q < i ==> !route_refused(all, q))
                        && refusal_of(all[i], e));
                    return Err(e);
                },
                Ok(()) => {
                    out.insert(k, (name, router));
                    proof {
                        assert(!route_refused(all, n));
                        assert(out@ =~= out0.update(k as int, out@[k as int]));
                        lemma_step(all, n, out0, out@, k as int, before);
                        n = n + 1;
                    }
                },
            }
        }
    }
    assert(all.take(n) =~= all);
    Ok(out)
}

/// Nothing is built from no routes.
proof fn lemma_built_empty<R>(done: Seq<RouteConfigEntry<R>>, out: Seq<(String, Router<R>)>)
    requires
        done.len() == 0,
        out.len() == 0,
    ensures
        routers_built(done, out),
{
    reveal(names_distinct);
    reveal(routers_wf);
    reveal(counts_match);
    reveal(routes_present);
    reveal(paths_sourced);
    reveal(listeners_sourced);
}

/// A listener without a router has no routes yet, so the next route of it
/// is refused exactly when its path is.
proof fn lemma_no_router_no_routes<R>(all: Seq<RouteConfigEntry<R>>, n: int, out: Seq<(String, Router<R>)>)
    requires
        0 <= n < all.len(),
        routers_built(all.take(n), out),
        forall|q: int| 0 <= q < out.len() ==> (#[trigger] out[q]).0@ != all[n].listener@,
    ensures
        routes_of(all.take(n), all[n].listener@) == 0,
        forall|m: int| 0 <= m < n ==> (#[trigger] all[m]).listener@ != all[n].listener@,
        route_refused(all, n) <==> !route_path_ok(all[n].path@),
{
    let done = all.take(n);
    let l = all[n].listener@;
    reveal(routes_present);
    assert forall|m: int| 0 <= m < done.len() implies (#[trigger] done[m]).listener@ != l by {
        let k = choose|k: int| 0 <= k < out.len()
            && (#[trigger] out[k]).0@ == (#[trigger] done[m]).listener@
            && exists|j: int| 0 <= j < out[k].1.routes_spec().len() && (#[trigger] out[k].1.routes_spec()[j]).path@ == done[m].path@;
    }
    assert forall|m: int| 0 <= m < n implies (#[trigger] all[m]).listener@ != l by {
        assert(done[m] == all[m]);
    }
    lemma_routes_of_none(done, l);
}

/// The router of a listener holds a path exactly when an earlier route of
/// the listener has it, so the next route of it is refused exactly when
/// its path is bad or already held.
proof fn lemma_same_path_in_router<R>(all: Seq<RouteConfigEntry<R>>, n: int, out: Seq<(String, Router<R>)>, k: int)
    requires
        0 <= n < all.len(),
        routers_built(all.take(n), out),
        0 <= k < out.len(),
        out[k].0@ == all[n].listener@,
    ensures
        route_refused(all, n) <==> (!route_path_ok(all[n].path@)
            || exists|j: int| 0 <= j < out[k].1.routes_spec().len() && (#[trigger] out[k].1.routes_spec()[j]).path@ == all[n].path@),
{
    let done = all.take(n);
    let l = all[n].listener@;
    let path = all[n].path@;
    reveal(routes_present);
    reveal(paths_sourced);
    reveal(names_distinct);
    if exists|q: int| 0 <= q < n && (#[trigger] all[q]).listener@ == l && all[q].path@ == path {
        let q = choose|q: int| 0 <= q < n && (#[trigger] all[q]).listener@ == l && all[q].path@ == path;
        assert(done[q] == all[q]);
        let kk = choose|kk: int| 0 <= kk < out.len()
            && (#[trigger] out[kk]).0@ == (#[trigger] done[q]).listener@
            && exists|j: int| 0 <= j < out[kk].1.routes_spec().len() && (#[trigger] out[kk].1.routes_spec()[j]).path@ == done[q].path@;
        if kk < k {
            assert((out[kk]).0@ != (out[k]).0@);
        } else if kk > k {
            assert((out[k]).0@ != (out[kk]).0@);
        }
    }
    if exists|j: int| 0 <= j < out[k].1.routes_spec().len() && (#[trigger] out[k].1.routes_spec()[j]).path@ == path {
        let j = choose|j: int| 0 <= j < out[k].1.routes_spec().len() && (#[trigger] out[k].1.routes_spec()[j]).path@ == path;
        assert(path_sourced_at(done, out, k, j));
        let m = choose|m: int| 0 <= m < done.len() && (#[trigger] done[m]).listener@ == out[k].0@
            && done[m].path@ == out[k].1.routes_spec()[j].path@;
        assert(all[m] == done[m]);
    }
}

proof fn lemma_routes_of_none<R>(done: Seq<RouteConfigEntry<R>>, l: Seq<char>)
    requires
        forall|m: int| 0 <= m < done.len() ==> (#[trigger] done[m]).listener@ != l,
    ensures
        routes_of(done, l) == 0,
    decreases done.len(),
{
    if done.len() > 0 {
        let p = done.drop_last();
        assert forall|m: int| 0 <= m < p.len() implies (#[trigger] p[m]).listener@ != l by {
            assert(p[m] == done[m]);
        }
        lemma_routes_of_none(p, l);
    }
}

/// One more route counts for its own listener only.
proof fn lemma_routes_of_step<R>(all: Seq<RouteConfigEntry<R>>, n: int, l: Seq<char>)
    requires
        0 <= n < all.len(),
    ensures
        routes_of(all.take(n + 1), l) == routes_of(all.take(n), l) + (if all[n].listener@ == l { 1nat } else { 0nat }),
{
    assert(all.take(n + 1).drop_last() =~= all.take(n));
    assert(all.take(n + 1).last() == all[n]);
}

/// The setting of the step lemmas: `out` is `out0` after route `n` went to
/// router `k` (a new one at the end, or an existing one), whose routes are
/// those of `before` with the route added.
pub open spec fn step<R>(all: Seq<RouteConfigEntry<R>>, n: int, out0: Seq<(String, Router<R>)>, out: Seq<(String, Router<R>)>, k: int, before: Seq<RouteEntry<R>>) -> bool {
    &&& 0 <= n < all.len()
    &&& routers_built(all.take(n), out0)
    &&& 0 <= k < out.len()
    &&& (out.len() == out0.len() || (out.len() == out0.len() + 1 && k == out0.len()))
    &&& (forall|q: int| 0 <= q < out0.len() && q != k ==> out[q] == out0[q])
    &&& out[k].0@ == all[n].listener@
    &&& (k < out0.len() ==> out0[k].0@ == all[n].listener@ && out0[k].1.routes_spec() == before)
    &&& (k == out0.len() ==> before.len() == 0 && routes_of(all.take(n), all[n].listener@) == 0
            && forall|q: int| 0 <= q < out0.len() ==> (#[trigger] out0[q]).0@ != all[n].listener@)
    &&& out[k].1.wf()
    &&& route_added(before, out[k].1.routes_spec(), all[n].hosts@, all[n].path@, all[n].target)
}

proof fn lemma_step_names<R>(all: Seq<RouteConfigEntry<R>>, n: int, out0: Seq<(String, Router<R>)>, out: Seq<(String, Router<R>)>, k: int, before: Seq<RouteEntry<R>>)
    requires
        step(all, n, out0, out, k, before),
    ensures
        names_distinct(out),
{
    reveal(names_distinct);
    assert forall|a: int, b: int| 0 <= a < b < out.len() implies (#[trigger] out[a]).0@ != (#[trigger] out[b]).0@ by {
        if a == k {
            if k == out0.len() {
            } else {
                assert(out[b] == out0[b]);
            }
        } else if b == k {
            assert(out[a] == out0[a]);
            if k == out0.len() {
                assert(out0[a].0@ != all[n].listener@);
            }
        } else {
            assert(out[a] == out0[a] && out[b] == out0[b]);
        }
    }
}

proof fn lemma_step_wf<R>(all: Seq<RouteConfigEntry<R>>, n: int, out0: Seq<(String, Router<R>)>, out: Seq<(String, Router<R>)>, k: int, before: Seq<RouteEntry<R>>)
    requires
        step(all, n, out0, out, k, before),
    ensures
        routers_wf(out),
{
    reveal(routers_wf);
    assert forall|q: int| 0 <= q < out.len() implies (#[trigger] out[q]).1.wf() by {
        if q != k {
            assert(out[q] == out0[q]);
        }
    }
}

proof fn lemma_step_counts<R>(all: Seq<RouteConfigEntry<R>>, n: int, out0: Seq<(String, Router<R>)>, out: Seq<(String, Router<R>)>, k: int, before: Seq<RouteEntry<R>>)
    requires
        step(all, n, out0, out, k, before),
    ensures
        counts_match(all.take(n + 1), out),
{
    reveal(counts_match);
    reveal(names_distinct);
    let j0 = choose|j: int| route_added_at(before, out[k].1.routes_spec(), all[n].hosts@, all[n].path@, all[n].target, j);
    assert(out[k].1.routes_spec().len() == before.len() + 1);
    assert forall|q: int| 0 <= q < out.len() implies (#[trigger] out[q]).1.routes_spec().len() == routes_of(all.take(n + 1), out[q].0@) by {
        lemma_routes_of_step(all, n, out[q].0@);
        if q != k {
            assert(out[q] == out0[q]);
            if k < out0.len() {
                if q < k {
                    assert((out0[q]).0@ != (out0[k]).0@);
                } else {
                    assert((out0[k]).0@ != (out0[q]).0@);
                }
            } else {
                assert(out0[q].0@ != all[n].listener@);
            }
        }
    }
}

proof fn lemma_step_present<R>(all: Seq<RouteConfigEntry<R>>, n: int, out0: Seq<(String, Router<R>)>, out: Seq<(String, Router<R>)>, k: int, before: Seq<RouteEntry<R>>)
    requires
        step(all, n, out0, out, k, before),
    ensures
        routes_present(all.take(n + 1), out),
{
    reveal(routes_present);
    let done = all.take(n);
    let done1 = all.take(n + 1);
    let f = out[k].1.routes_spec();
    let j0 = choose|j: int| route_added_at(before, f, all[n].hosts@, all[n].path@, all[n].target, j);
    assert forall|m: int| 0 <= m < done1.len() implies exists|kk: int| 0 <= kk < out.len()
            && (#[trigger] out[kk]).0@ == (#[trigger] done1[m]).listener@
            && exists|j: int| 0 <= j < out[kk].1.routes_spec().len() && (#[trigger] out[kk].1.routes_spec()[j]).path@ == done1[m].path@ by {
        if m < n {
            assert(done1[m] == done[m]);
            let kk = choose|kk: int| 0 <= kk < out0.len()
                && (#[trigger] out0[kk]).0@ == (#[trigger] done[m]).listener@
                && exists|j: int| 0 <= j < out0[kk].1.routes_spec().len() && (#[trigger] out0[kk].1.routes_spec()[j]).path@ == done[m].path@;
            let j = choose|j: int| 0 <= j < out0[kk].1.routes_spec().len() && (#[trigger] out0[kk].1.routes_spec()[j]).path@ == done[m].path@;
            if kk != k {
                assert(out[kk] == out0[kk]);
            } else {
                if j < j0 {
                    assert(f[j] == before[j]);
                } else {
                    assert(f[j + 1] == before[j]);
                }
            }
        } else {
            assert(done1[m] == all[n]);
            assert(f[j0].path@ == all[n].path@);
        }
    }
}

proof fn lemma_step_paths<R>(all: Seq<RouteConfigEntry<R>>, n: int, out0: Seq<(String, Router<R>)>, out: Seq<(String, Router<R>)>, k: int, before: Seq<RouteEntry<R>>)
    requires
        step(all, n, out0, out, k, before),
    ensures
        paths_sourced(all.take(n + 1), out),
{
    reveal(paths_sourced);
    let done = all.take(n);
    let done1 = all.take(n + 1);
    let f = out[k].1.routes_spec();
    let j0 = choose|j: int| route_added_at(before, f, all[n].hosts@, all[n].path@, all[n].target, j);
    assert forall|q: int, j: int| 0 <= q < out.len() && 0 <= j < out[q].1.routes_spec().len() implies
        #[trigger] path_sourced_at(done1, out, q, j) by {
        if q != k {
            assert(out[q] == out0[q]);
            assert(path_sourced_at(done, out0, q, j));
            let m = choose|m: int| 0 <= m < done.len() && (#[trigger] done[m]).listener@ == out0[q].0@
                && done[m].path@ == out0[q].1.routes_spec()[j].path@;
            assert(done1[m] == done[m]);
        } else if j == j0 {
            assert(done1[n] == all[n]);
            assert(f[j0].path@ == all[n].path@);
        } else {
            let jo = if j < j0 { j } else { j - 1 };
            assert(f[j] == before[jo]);
            assert(k < out0.len());
            assert(path_sourced_at(done, out0, k, jo));
            let m = choose|m: int| 0 <= m < done.len() && (#[trigger] done[m]).listener@ == out0[k].0@
                && done[m].path@ == out0[k].1.routes_spec()[jo].path@;
            assert(done1[m] == done[m]);
        }
    }
}

proof fn lemma_step_listeners<R>(all: Seq<RouteConfigEntry<R>>, n: int, out0: Seq<(String, Router<R>)>, out: Seq<(String, Router<R>)>, k: int, before: Seq<RouteEntry<R>>)
    requires
        step(all, n, out0, out, k, before),
    ensures
        listeners_sourced(all.take(n + 1), out),
{
    reveal(listeners_sourced);
    let done = all.take(n);
    let done1 = all.take(n + 1);
    assert forall|q: int| 0 <= q < out.len() implies exists|m: int| 0 <= m < done1.len() && (#[trigger] done1[m]).listener@ == (#[trigger] out[q]).0@ by {
        if q == k {
            assert(done1[n] == all[n]);
        } else {
            assert(out[q] == out0[q]);
            let m = choose|m: int| 0 <= m < done.len() && (#[trigger] done[m]).listener@ == (#[trigger] out0[q]).0@;
            assert(done1[m] == done[m]);
        }
    }
}

proof fn lemma_step<R>(all: Seq<RouteConfigEntry<R>>, n: int, out0: Seq<(String, Router<R>)>, out: Seq<(String, Router<R>)>, k: int, before: Seq<RouteEntry<R>>)
    requires
        step(all, n, out0, out, k, before),
    ensures
        routers_built(all.take(n + 1), out),
{
    lemma_step_names(all, n, out0, out, k, before);
    lemma_step_wf(all, n, out0, out, k, before);
    lemma_step_counts(all, n, out0, out, k, before);
    lemma_step_present(all, n, out0, out, k, before);
    lemma_step_paths(all, n, out0, out, k, before);
    lemma_step_listeners(all, n, out0, out, k, before);
}

} // verus!
