//! Longest-prefix HTTP routing with host matching.
use vstd::prelude::*;
use vstd::utf8::encode_utf8;
use crate::normalization::segments::{lemma_split_len, split_seq};
use crate::text::{
    ascii_lower_seq, chars_eq, chars_eq_ignore_ascii_case, eq_ignore_ascii_case_spec, push_char,
    str_chars, string_from_chars, to_ascii_lowercase,
};

verus! {

/// How a route matches the request host.
#[derive(Debug, Clone)]
pub enum HostMatcher {
    /// The host itself (stored lowercase).
    Exact(String),
    /// `*.example.com` (stored lowercase): exactly one label in front of the base domain.
    Wildcard(String),
    /// `*`: every host.
    Any,
}

/// One route of a listener: the hosts it serves, its path prefix, and what it leads to.
#[derive(Debug)]
pub struct RouteEntry<R> {
    pub hosts: Vec<HostMatcher>,
    pub path: String,
    pub kind: R,
}

/// The routes of one listener, longest path first.
#[derive(Debug)]
pub struct Router<R> {
    routes: Vec<RouteEntry<R>>,
}

/// Why a route could not be added or matched.
#[derive(Debug, Clone, PartialEq, Eq)]
pub enum RouterError {
    /// A route path has to start with `/`.
    InvalidRoutePath(String),
    /// Two routes of a listener have the same path.
    DuplicateRoutePath(String),
    /// A request path has to start with `/`.
    InvalidRequestPath(String),
    /// No route serves the host and path.
    NoRouteMatched(String),
}

/// The matcher a configured host name gives.
pub open spec fn host_matcher_spec(host: Seq<char>) -> (u8, Seq<char>) {
    let h = ascii_lower_seq(host);
    if h == seq!['*'] {
        (2, Seq::empty())
    } else if h.len() >= 2 && h[0] == '*' && h[1] == '.' {
        (1, h)
    } else {
        (0, h)
    }
}

/// The kind (0 exact, 1 wildcard, 2 any) and pattern of a matcher.
pub open spec fn matcher_view(m: HostMatcher) -> (u8, Seq<char>) {
    match m {
        HostMatcher::Exact(h) => (0, h@),
        HostMatcher::Wildcard(p) => (1, p@),
        HostMatcher::Any => (2, Seq::empty()),
    }
}

impl HostMatcher {
    /// Builds the matcher for a configured host: `*` matches any host,
    /// `*.domain` is a single-label wildcard, anything else is exact. The
    /// host is lowercased first.
    pub fn from_host(host: String) -> (m: Self)
        ensures
            matcher_view(m) == host_matcher_spec(host@),
    {
        let h = to_ascii_lowercase(host.as_str());
        let v = str_chars(h.as_str());
        if v.len() == 1 && v[0] == '*' {
            assert(v@ =~= seq!['*']);
            HostMatcher::Any
        } else if v.len() >= 2 && v[0] == '*' && v[1] == '.' {
            HostMatcher::Wildcard(h)
        } else {
            proof {
                if v@ == seq!['*'] {
                    assert(v@.len() == 1);
                }
            }
            HostMatcher::Exact(h)
        }
    }
}

/// `s` begins with `p`.
pub open spec fn starts_with(s: Seq<char>, p: Seq<char>) -> bool {
    p.len() <= s.len() && s.take(p.len() as int) == p
}

/// `s` ends with `p`.
pub open spec fn ends_with(s: Seq<char>, p: Seq<char>) -> bool {
    p.len() <= s.len() && s.skip(s.len() - p.len()) == p
}

/// Slash-boundary prefix matching over the UTF-8 bytes of both paths:
/// `/` matches everything; otherwise the request path equals the prefix or
/// continues it with `/`.
pub open spec fn path_matches_prefix_spec(prefix: Seq<char>, path: Seq<char>) -> bool {
    let pb = encode_utf8(prefix);
    let rb = encode_utf8(path);
    ||| prefix == seq!['/']
    ||| path == prefix
    ||| (pb.len() < rb.len() && rb.take(pb.len() as int) == pb && rb[pb.len() as int] == 47)
}

/// Whether a matcher covers a host. A wildcard covers `x.<domain>` with one
/// extra label; the suffix comparison is case-sensitive.
pub open spec fn host_matches_spec(m: HostMatcher, host: Seq<char>) -> bool {
    match m {
        HostMatcher::Exact(h) => eq_ignore_ascii_case_spec(h@, host),
        HostMatcher::Wildcard(p) => {
            if starts_with(p@, seq!['*', '.']) {
                let suffix = p@.skip(2);
                &&& ends_with(host, seq!['.'] + suffix)
                &&& split_seq(host, '.').len() == split_seq(suffix, '.').len() + 1
            } else {
                false
            }
        },
        HostMatcher::Any => true,
    }
}

/// Whether any host matcher of a route covers the host.
pub open spec fn route_matches_host_spec(hosts: Seq<HostMatcher>, host: Seq<char>) -> bool {
    exists|i: int| 0 <= i < hosts.len() && host_matches_spec(#[trigger] hosts[i], host)
}

/// Whether a route serves a host and path.
pub open spec fn route_serves<R>(r: RouteEntry<R>, host: Seq<char>, path: Seq<char>) -> bool {
    path_matches_prefix_spec(r.path@, path) && route_matches_host_spec(r.hosts@, host)
}

fn bytes_starts_with(s: &[u8], p: &[u8]) -> (r: bool)
    ensures
        r == (p@.len() <= s@.len() && s@.take(p@.len() as int) == p@),
{
    if p.len() > s.len() {
        return false;
    }
    let mut i: usize = 0;
    while i < p.len()
        invariant
            p.len() <= s.len(),
            i <= p.len(),
            forall|k: int| 0 <= k < i ==> s@[k] == p@[k],
        decreases p.len() - i,
    {
        if s[i] != p[i] {
            assert(s@.take(p@.len() as int)[i as int] != p@[i as int]);
            return false;
        }
        i = i + 1;
    }
    assert(s@.take(p@.len() as int) =~= p@);
    true
}

/// Slash-boundary-aware prefix matching: `/api` matches `/api` and
/// `/api/x`, but not `/apikeys`.
pub fn path_matches_prefix(prefix: &str, request_path: &str) -> (r: bool)
    ensures
        r == path_matches_prefix_spec(prefix@, request_path@),
{
    let pv = str_chars(prefix);
    let rv = str_chars(request_path);
    if pv.len() == 1 && pv[0] == '/' {
        assert(prefix@ =~= seq!['/']);
        return true;
    }
    if chars_eq(&rv, &pv) {
        return true;
    }
    proof {
        if prefix@ == seq!['/'] {
            assert(pv@.len() == 1);
        }
    }
    let pb = prefix.as_bytes();
    let rb = request_path.as_bytes();
    bytes_starts_with(rb, pb) && pb.len() < rb.len() && rb[pb.len()] == 47
}

/// `str::ends_with` on characters.
fn chars_ends_with(s: &Vec<char>, p: &Vec<char>) -> (r: bool)
    ensures
        r == ends_with(s@, p@),
{
    if p.len() > s.len() {
        return false;
    }
    let off = s.len() - p.len();
    let mut i: usize = 0;
    while i < p.len()
        invariant
            off + p.len() == s.len(),
            i <= p.len(),
            forall|k: int| 0 <= k < i ==> s@[off + k] == p@[k],
        decreases p.len() - i,
    {
        if s[off + i] != p[i] {
            assert(s@.skip(off as int)[i as int] != p@[i as int]);
            return false;
        }
        i = i + 1;
    }
    assert(s@.skip(off as int) =~= p@);
    true
}

/// Number of separators in `v[start..]`: one less than the number of pieces `split(sep)` gives.
fn separator_count(v: &Vec<char>, start: usize, sep: char) -> (n: usize)
    requires
        start <= v.len(),
    ensures
        n + 1 == split_seq(v@.skip(start as int), sep).len(),
{
    let mut n: usize = 0;
    let mut i: usize = start;
    proof {
        assert(v@.skip(start as int).take(0) =~= Seq::<char>::empty());
    }
    while i < v.len()
        invariant
            start <= i <= v.len(),
            n + 1 == split_seq(v@.skip(start as int).take(i - start), sep).len(),
            n <= i - start,
        decreases v.len() - i,
    {
        let ghost s_next = v@.skip(start as int).take(i + 1 - start);
        assert(s_next.drop_last() =~= v@.skip(start as int).take(i - start));
        assert(s_next.last() == v@[i as int]);
        proof {
            lemma_split_len(s_next.drop_last(), sep);
        }
        if v[i] == sep {
            n = n + 1;
        }
        i = i + 1;
    }
    assert(v@.skip(start as int).take(v.len() - start) =~= v@.skip(start as int));
    n
}

/// Whether a host matcher covers the request host.
pub fn host_matches(matcher: &HostMatcher, host: &str) -> (r: bool)
    ensures
        r == host_matches_spec(*matcher, host@),
{
    match matcher {
        HostMatcher::Exact(h) => {
            let a = str_chars(h.as_str());
            let b = str_chars(host);
            chars_eq_ignore_ascii_case(&a, &b)
        },
        HostMatcher::Wildcard(pattern) => {
            let p = str_chars(pattern.as_str());
            if !(p.len() >= 2 && p[0] == '*' && p[1] == '.') {
                proof {
                    if starts_with(p@, seq!['*', '.']) {
                        assert(p@.take(2)[0] == '*' && p@.take(2)[1] == '.');
                    }
                }
                return false;
            }
            assert(p@.take(2) =~= seq!['*', '.']);
            let mut dotted: Vec<char> = Vec::new();
            dotted.push('.');
            let mut k: usize = 2;
            while k < p.len()
                invariant
                    2 <= k <= p.len(),
                    dotted@ == seq!['.'] + p@.subrange(2, k as int),
                decreases p.len() - k,
            {
                dotted.push(p[k]);
                k = k + 1;
                assert(dotted@ =~= seq!['.'] + p@.subrange(2, k as int));
            }
            assert(p@.subrange(2, p.len() as int) =~= p@.skip(2));
            let h = str_chars(host);
            let ends = chars_ends_with(&h, &dotted);
            let expected = separator_count(&p, 2, '.');
            let actual = separator_count(&h, 0, '.');
            assert(h@.skip(0) =~= h@);
            ends && actual > expected && actual - expected == 1
        },
        HostMatcher::Any => true,
    }
}

/// Whether any of the route's host matchers covers the host.
pub fn route_matches_host<R>(host: &str, route: &RouteEntry<R>) -> (r: bool)
    ensures
        r == route_matches_host_spec(route.hosts@, host@),
{
    let mut i: usize = 0;
    while i < route.hosts.len()
        invariant
            i <= route.hosts.len(),
            forall|k: int| 0 <= k < i ==> !host_matches_spec(#[trigger] route.hosts@[k], host@),
        decreases route.hosts.len() - i,
    {
        if host_matches(&route.hosts[i], host) {
            return true;
        }
        i = i + 1;
    }
    false
}


/// Byte length of a string (`str::len`).
pub open spec fn byte_len(s: Seq<char>) -> nat {
    encode_utf8(s).len()
}

/// Routes ordered longest path first, with distinct paths that start with `/`.
pub open spec fn routes_wf<R>(routes: Seq<RouteEntry<R>>) -> bool {
    &&& forall|i: int, j: int| 0 <= i < j < routes.len() ==> byte_len(routes[j].path@) <= byte_len(routes[i].path@)
    &&& forall|i: int, j: int| 0 <= i < j < routes.len() ==> routes[i].path@ != routes[j].path@
    &&& forall|i: int| 0 <= i < routes.len() ==> (#[trigger] routes[i].path@).len() > 0 && routes[i].path@[0] == '/'
}

/// Where `add_route` places a route with a path of `len` bytes: after every
/// route at least as long (a stable sort, longest path first).
pub open spec fn insert_position<R>(routes: Seq<RouteEntry<R>>, len: nat, j: int) -> bool {
    &&& 0 <= j <= routes.len()
    &&& forall|k: int| 0 <= k < j ==> byte_len((#[trigger] routes[k]).path@) >= len
    &&& j < routes.len() ==> byte_len(routes[j].path@) < len
}

/// `f` is `o` with a route for `path` added at `j`: an insert position for
/// its length, the other routes kept in order around it, and the route
/// carrying the path, the kind and the matchers of the configured hosts.
pub open spec fn route_added_at<R>(o: Seq<RouteEntry<R>>, f: Seq<RouteEntry<R>>, hosts: Seq<String>, path: Seq<char>, kind: R, j: int) -> bool {
    &&& insert_position(o, byte_len(path), j)
    &&& f.len() == o.len() + 1
    &&& (forall|k: int| 0 <= k < j ==> #[trigger] f[k] == o[k])
    &&& (forall|k: int| j < k < f.len() ==> #[trigger] f[k] == o[k - 1])
    &&& f[j].path@ == path
    &&& f[j].kind == kind
    &&& f[j].hosts@.len() == hosts.len()
    &&& forall|k: int| 0 <= k < hosts.len() ==> matcher_view(#[trigger] f[j].hosts@[k]) == host_matcher_spec(hosts[k]@)
}

/// `f` is `o` with a route for `path` added.
pub open spec fn route_added<R>(o: Seq<RouteEntry<R>>, f: Seq<RouteEntry<R>>, hosts: Seq<String>, path: Seq<char>, kind: R) -> bool {
    exists|j: int| route_added_at(o, f, hosts, path, kind, j)
}

/// Whether a matcher, given by its kind and pattern, covers a host.
pub open spec fn matcher_covers(v: (u8, Seq<char>), host: Seq<char>) -> bool {
    if v.0 == 0 {
        eq_ignore_ascii_case_spec(v.1, host)
    } else if v.0 == 1 {
        if starts_with(v.1, seq!['*', '.']) {
            let suffix = v.1.skip(2);
            &&& ends_with(host, seq!['.'] + suffix)
            &&& split_seq(host, '.').len() == split_seq(suffix, '.').len() + 1
        } else {
            false
        }
    } else {
        true
    }
}

/// An added route is reachable: for a host that one of its configured
/// hosts covers, some route serves a request at the added path, and the
/// route `match_route` picks for it (the first that serves it) has a path
/// at least as long as the added one.
pub proof fn law_added_route_is_matched<R>(
    o: Seq<RouteEntry<R>>,
    f: Seq<RouteEntry<R>>,
    hosts: Seq<String>,
    path: Seq<char>,
    kind: R,
    host: Seq<char>,
    m: int,
)
    requires
        route_added(o, f, hosts, path, kind),
        0 <= m < hosts.len(),
        matcher_covers(host_matcher_spec(hosts[m]@), host),
    ensures
        exists|i: int| 0 <= i < f.len() && route_serves(#[trigger] f[i], host, path),
        forall|i: int| 0 <= i < f.len() && route_serves(#[trigger] f[i], host, path)
            && (forall|k: int| 0 <= k < i ==> !route_serves(#[trigger] f[k], host, path))
            ==> byte_len(f[i].path@) >= byte_len(path),
{
    let j = choose|j: int| route_added_at(o, f, hosts, path, kind, j);
    let hm = f[j].hosts@[m];
    assert(matcher_view(hm) == host_matcher_spec(hosts[m]@));
    assert(host_matches_spec(hm, host));
    assert(route_matches_host_spec(f[j].hosts@, host));
    assert(route_serves(f[j], host, path));
    assert forall|i: int| 0 <= i < f.len() && route_serves(#[trigger] f[i], host, path)
        && (forall|k: int| 0 <= k < i ==> !route_serves(#[trigger] f[k], host, path))
        implies byte_len(f[i].path@) >= byte_len(path) by {
        if i > j {
            assert(!route_serves(f[j], host, path));
        } else if i < j {
            assert(f[i] == o[i]);
        }
    }
}

impl RouterError {
    /// The error text.
    pub fn message(&self) -> (s: String)
        ensures
            s@ == router_error_message(*self),
    {
        let (prefix, detail) = match self {
            RouterError::InvalidRoutePath(p) => ("route path must start with '/': ", p),
            RouterError::DuplicateRoutePath(p) => ("duplicate route path: ", p),
            RouterError::InvalidRequestPath(p) => ("invalid request path: ", p),
            RouterError::NoRouteMatched(p) => ("no route matched path ", p),
        };
        let mut s = prefix.to_owned();
        let d = str_chars(detail.as_str());
        let mut i: usize = 0;
        let ghost s0 = s@;
        while i < d.len()
            invariant
                i <= d.len(),
                s@ == s0 + d@.take(i as int),
            decreases d.len() - i,
        {
            push_char(&mut s, d[i]);
            i = i + 1;
            assert(s@ =~= s0 + d@.take(i as int));
        }
        assert(d@.take(d.len() as int) =~= d@);
        s
    }
}

/// The text of a router error.
pub open spec fn router_error_message(e: RouterError) -> Seq<char> {
    match e {
        RouterError::InvalidRoutePath(p) => "route path must start with '/': "@ + p@,
        RouterError::DuplicateRoutePath(p) => "duplicate route path: "@ + p@,
        RouterError::InvalidRequestPath(p) => "invalid request path: "@ + p@,
        RouterError::NoRouteMatched(p) => "no route matched path "@ + p@,
    }
}

impl<R> Router<R> {
    /// The routes, longest path first.
    pub closed spec fn routes_spec(&self) -> Seq<RouteEntry<R>> {
        self.routes@
    }

    /// The router's invariant.
    pub open spec fn wf(&self) -> bool {
        routes_wf(self.routes_spec())
    }

    /// An empty router.
    pub fn new() -> (r: Self)
        ensures
            r.routes_spec().len() == 0,
            r.wf(),
    {
        Router { routes: Vec::new() }
    }

    /// Number of routes.
    pub fn len(&self) -> (n: usize)
        ensures
            n == self.routes_spec().len(),
    {
        self.routes.len()
    }

    /// Adds a route. The path must start with `/` and differ from every
    /// existing route path. The route goes after every route whose path is at
    /// least as long, so the longest prefix is tried first.
    pub fn add_route(&mut self, hosts: Vec<String>, path: &str, kind: R) -> (r: Result<(), RouterError>)
        requires
            old(self).wf(),
        ensures
            final(self).wf(),
            r matches Err(RouterError::InvalidRoutePath(p)) ==> p@ == path@,
            r matches Err(RouterError::DuplicateRoutePath(p)) ==> p@ == path@,
            r is Err ==> final(self).routes_spec() == old(self).routes_spec(),
            r matches Err(e) ==> e is InvalidRoutePath || e is DuplicateRoutePath,
            (r matches Err(RouterError::InvalidRoutePath(_))) <==> !(path@.len() > 0 && path@[0] == '/'),
            (r matches Err(RouterError::DuplicateRoutePath(_))) <==> (path@.len() > 0 && path@[0] == '/'
                && exists|i: int| 0 <= i < old(self).routes_spec().len() && (#[trigger] old(self).routes_spec()[i]).path@ == path@),
            r is Ok ==> route_added(old(self).routes_spec(), final(self).routes_spec(), hosts@, path@, kind),
    {
        let pv = str_chars(path);
        if !(pv.len() > 0 && pv[0] == '/') {
            return Err(RouterError::InvalidRoutePath(path.to_owned()));
        }
        let mut i: usize = 0;
        while i < self.routes.len()
            invariant
                i <= self.routes.len(),
                self.routes@ == old(self).routes@,
                pv@ == path@,
                path@.len() > 0 && path@[0] == '/',
                old(self).wf(),
                forall|k: int| 0 <= k < i ==> (#[trigger] self.routes@[k]).path@ != path@,
            decreases self.routes.len() - i,
        {
            let rp = str_chars(self.routes[i].path.as_str());
            if chars_eq(&rp, &pv) {
                return Err(RouterError::DuplicateRoutePath(path.to_owned()));
            }
            i = i + 1;
        }
        let mut matchers: Vec<HostMatcher> = Vec::new();
        let mut k: usize = 0;
        let n = hosts.len();
        let mut hosts = hosts;
        let ghost hosts0 = hosts@;
        while k < n
            invariant
                k <= n,
                n == hosts0.len(),
                hosts@ == hosts0,
                matchers@.len() == k,
                forall|m: int| 0 <= m < k ==> matcher_view(#[trigger] matchers@[m]) == host_matcher_spec(hosts0[m]@),
            decreases n - k,
        {
            let h = hosts[k].clone();
            matchers.push(HostMatcher::from_host(h));
            k = k + 1;
        }
        let len = path.as_bytes().len();
        let mut j: usize = 0;
        while j < self.routes.len() && self.routes[j].path.as_str().as_bytes().len() >= len
            invariant
                j <= self.routes.len(),
                self.routes@ == old(self).routes@,
                len == byte_len(path@),
                forall|m: int| 0 <= m < j ==> byte_len((#[trigger] self.routes@[m]).path@) >= len,
            decreases self.routes.len() - j,
        {
            j = j + 1;
        }
        let entry = RouteEntry { hosts: matchers, path: path.to_owned(), kind };
        self.routes.insert(j, entry);
        proof {
            let o = old(self).routes@;
            let f = self.routes@;
            assert(f == o.insert(j as int, f[j as int]));
            assert forall|a: int, b: int| 0 <= a < b < f.len() implies byte_len(f[b].path@) <= byte_len(f[a].path@) by {
                if b < j {
                } else if b == j {
                    assert(a < j);
                    assert(byte_len(o[a].path@) >= len);
                } else if a == j {
                    assert(f[b] == o[b - 1]);
                    if j < o.len() {
                        assert(byte_len(o[j as int].path@) < len);
                        if b - 1 > j {
                            assert(byte_len(o[b - 1].path@) <= byte_len(o[j as int].path@));
                        }
                    }
                } else if a < j {
                    assert(f[b] == o[b - 1]);
                } else {
                    assert(f[a] == o[a - 1] && f[b] == o[b - 1]);
                }
            }
            assert forall|a: int, b: int| 0 <= a < b < f.len() implies f[a].path@ != f[b].path@ by {
                if b < j {
                } else if b == j {
                    assert(o[a].path@ != path@);
                } else if a == j {
                    assert(f[b] == o[b - 1]);
                    assert(o[b - 1].path@ != path@);
                } else if a < j {
                    assert(f[b] == o[b - 1]);
                } else {
                    assert(f[a] == o[a - 1] && f[b] == o[b - 1]);
                }
            }
            assert forall|a: int| 0 <= a < f.len() implies (#[trigger] f[a].path@).len() > 0 && f[a].path@[0] == '/' by {
                if a < j {
                } else if a == j {
                } else {
                    assert(f[a] == o[a - 1]);
                }
            }
            assert(insert_position(o, byte_len(path@), j as int));
            assert(route_added_at(o, f, hosts0, path@, kind, j as int));
        }
        Ok(())
    }

    /// Finds the route for a host and request path: the first (so the
    /// longest) route whose path prefix covers the request path and whose
    /// hosts cover the host.
    pub fn match_route(&self, host: &str, request_path: &str) -> (r: Result<&RouteEntry<R>, RouterError>)
        requires
            self.wf(),
        ensures
            !(request_path@.len() > 0 && request_path@[0] == '/') ==> (r matches Err(RouterError::InvalidRequestPath(p)) && p@ == request_path@),
            (request_path@.len() > 0 && request_path@[0] == '/') ==> {
                match r {
                    Ok(route) => exists|i: int| {
                        &&& 0 <= i < self.routes_spec().len()
                        &&& *route == self.routes_spec()[i]
                        &&& route_serves(self.routes_spec()[i], host@, request_path@)
                        &&& forall|k: int| 0 <= k < i ==> !route_serves(#[trigger] self.routes_spec()[k], host@, request_path@)
                    },
                    Err(e) => (e matches RouterError::NoRouteMatched(p) && p@ == request_path@)
                        && forall|k: int| 0 <= k < self.routes_spec().len() ==> !route_serves(#[trigger] self.routes_spec()[k], host@, request_path@),
                }
            },
            r matches Ok(route) ==> forall|k: int|
                0 <= k < self.routes_spec().len() && route_serves(#[trigger] self.routes_spec()[k], host@, request_path@)
                    ==> byte_len(self.routes_spec()[k].path@) <= byte_len(route.path@),
    {
        let rv = str_chars(request_path);
        if !(rv.len() > 0 && rv[0] == '/') {
            return Err(RouterError::InvalidRequestPath(request_path.to_owned()));
        }
        let mut i: usize = 0;
        while i < self.routes.len()
            invariant
                i <= self.routes.len(),
                self.wf(),
                rv@ == request_path@,
                rv@.len() > 0 && rv@[0] == '/',
                forall|k: int| 0 <= k < i ==> !route_serves(#[trigger] self.routes@[k], host@, request_path@),
            decreases self.routes.len() - i,
        {
            if path_matches_prefix(self.routes[i].path.as_str(), request_path) && route_matches_host(host, &self.routes[i]) {
                proof {
                    assert(route_serves(self.routes@[i as int], host@, request_path@));
                    assert forall|k: int| 0 <= k < self.routes@.len() && route_serves(#[trigger] self.routes@[k], host@, request_path@)
                        implies byte_len(self.routes@[k].path@) <= byte_len(self.routes@[i as int].path@) by {
                        if k > i {
                        }
                    }
                }
                return Ok(&self.routes[i]);
            }
            i = i + 1;
        }
        Err(RouterError::NoRouteMatched(request_path.to_owned()))
    }
}

/// Whether the request path falls under one of the path prefixes.
pub fn request_path_in_scope(scopes: &Vec<String>, request_path: &str) -> (r: bool)
    ensures
        r == exists|i: int| 0 <= i < scopes@.len() && path_matches_prefix_spec((#[trigger] scopes@[i])@, request_path@),
{
    let mut i: usize = 0;
    while i < scopes.len()
        invariant
            i <= scopes.len(),
            forall|k: int| 0 <= k < i ==> !path_matches_prefix_spec((#[trigger] scopes@[k])@, request_path@),
        decreases scopes.len() - i,
    {
        if path_matches_prefix(scopes[i].as_str(), request_path) {
            return true;
        }
        i = i + 1;
    }
    false
}

/// Inserts `x` after every string at least as long (stable descending sort step).
pub open spec fn insert_longest_first(s: Seq<Seq<char>>, x: Seq<char>) -> Seq<Seq<char>>
    decreases s.len(),
{
    if s.len() == 0 {
        seq![x]
    } else if byte_len(s[0]) < byte_len(x) {
        seq![x] + s
    } else {
        seq![s[0]] + insert_longest_first(s.drop_first(), x)
    }
}

/// The stable sort by descending byte length (`sort_by_key(|p| Reverse(p.len()))`).
pub open spec fn sort_longest_first(s: Seq<Seq<char>>) -> Seq<Seq<char>>
    decreases s.len(),
{
    if s.len() == 0 {
        s
    } else {
        insert_longest_first(sort_longest_first(s.drop_last()), s.last())
    }
}

pub proof fn lemma_insert_longest_first_at(s: Seq<Seq<char>>, x: Seq<char>, j: int)
    requires
        0 <= j <= s.len(),
        forall|k: int| 0 <= k < j ==> byte_len(#[trigger] s[k]) >= byte_len(x),
        j < s.len() ==> byte_len(s[j]) < byte_len(x),
    ensures
        insert_longest_first(s, x) == s.insert(j, x),
    decreases s.len(),
{
    if s.len() == 0 {
        assert(s.insert(j, x) =~= seq![x]);
    } else if j == 0 {
        assert(s.insert(0, x) =~= seq![x] + s);
    } else {
        let t = s.drop_first();
        assert forall|k: int| 0 <= k < j - 1 implies byte_len(#[trigger] t[k]) >= byte_len(x) by {
            assert(t[k] == s[k + 1]);
        }
        if j < s.len() {
            assert(t[j - 1] == s[j]);
        }
        assert(byte_len(s[0]) >= byte_len(x));
        lemma_insert_longest_first_at(t, x, j - 1);
        assert(seq![s[0]] + t.insert(j - 1, x) =~= s.insert(j, x));
    }
}

/// The character views of owned strings.
pub open spec fn strings_view(v: Seq<String>) -> Seq<Seq<char>> {
    v.map_values(|s: String| s@)
}

/// Orders path prefixes longest first, keeping equal lengths in their order.
pub fn sort_paths_longest_first(paths: &mut Vec<String>)
    ensures
        strings_view(final(paths)@) == sort_longest_first(strings_view(old(paths)@)),
{
    let ghost input = strings_view(paths@);
    let mut rest: Vec<String> = Vec::new();
    std::mem::swap(paths, &mut rest);
    let mut out: Vec<String> = Vec::new();
    let mut i: usize = 0;
    while i < rest.len()
        invariant
            i <= rest.len(),
            strings_view(rest@) == input,
            strings_view(out@) == sort_longest_first(input.take(i as int)),
        decreases rest.len() - i,
    {
        let x = rest[i].clone();
        let xl = x.as_str().as_bytes().len();
        let mut j: usize = 0;
        while j < out.len() && out[j].as_str().as_bytes().len() >= xl
            invariant
                j <= out.len(),
                xl == byte_len(x@),
                forall|k: int| 0 <= k < j ==> byte_len(#[trigger] strings_view(out@)[k]) >= xl,
            decreases out.len() - j,
        {
            j = j + 1;
        }
        let ghost before = strings_view(out@);
        let ghost xv = x@;
        proof {
            lemma_insert_longest_first_at(before, xv, j as int);
        }
        out.insert(j, x);
        proof {
            assert(strings_view(out@) =~= before.insert(j as int, xv));
            let t = input.take(i + 1);
            assert(t.drop_last() =~= input.take(i as int));
        }
        i = i + 1;
    }
    assert(input.take(rest.len() as int) =~= input);
    *paths = out;
}

} // verus!
