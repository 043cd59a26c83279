use snakeway::route::{
    host_matches, path_matches_prefix, request_path_in_scope, sort_paths_longest_first, HostMatcher,
    Router, RouterError,
};

#[test]
fn longest_prefix_wins() {
    let mut r: Router<&str> = Router::new();
    r.add_route(vec!["*".to_string()], "/", "root").unwrap();
    r.add_route(vec!["*".to_string()], "/api", "api").unwrap();
    r.add_route(vec!["*".to_string()], "/api/v1", "v1").unwrap();
    assert_eq!(r.match_route("example.com", "/api/v1/users").unwrap().kind, "v1");
    assert_eq!(r.match_route("example.com", "/api/v2").unwrap().kind, "api");
    assert_eq!(r.match_route("example.com", "/apix").unwrap().kind, "root");
    assert_eq!(r.len(), 3);
}

#[test]
fn routes_are_checked() {
    let mut r: Router<u8> = Router::new();
    assert_eq!(r.add_route(vec![], "api", 1), Err(RouterError::InvalidRoutePath("api".to_string())));
    r.add_route(vec!["*".to_string()], "/a", 1).unwrap();
    assert_eq!(r.add_route(vec!["*".to_string()], "/a", 2), Err(RouterError::DuplicateRoutePath("/a".to_string())));
    assert!(matches!(r.match_route("h", "a"), Err(RouterError::InvalidRequestPath(_))));
    assert!(matches!(r.match_route("h", "/b"), Err(RouterError::NoRouteMatched(_))));
}

#[test]
fn hosts_match_exactly_by_wildcard_or_any() {
    let exact = HostMatcher::from_host("Example.COM".to_string());
    assert!(host_matches(&exact, "example.com"));
    assert!(!host_matches(&exact, "www.example.com"));
    let wild = HostMatcher::from_host("*.example.com".to_string());
    assert!(host_matches(&wild, "api.example.com"));
    assert!(!host_matches(&wild, "example.com"));
    assert!(!host_matches(&wild, "a.b.example.com"));
    let any = HostMatcher::from_host("*".to_string());
    assert!(host_matches(&any, "anything"));
}

#[test]
fn prefixes_end_at_segment_boundaries() {
    assert!(path_matches_prefix("/api", "/api"));
    assert!(path_matches_prefix("/api", "/api/x"));
    assert!(!path_matches_prefix("/api", "/apix"));
    assert!(path_matches_prefix("/", "/anything"));
}

#[test]
fn scopes_and_sorting() {
    let scopes = vec!["/admin".to_string(), "/internal".to_string()];
    assert!(request_path_in_scope(&scopes, "/admin/users"));
    assert!(!request_path_in_scope(&scopes, "/public"));
    let mut paths = vec!["/".to_string(), "/a/b/c".to_string(), "/a".to_string()];
    sort_paths_longest_first(&mut paths);
    assert_eq!(paths, vec!["/a/b/c", "/a", "/"]);
}

#[test]
fn router_error_messages() {
    assert_eq!(RouterError::NoRouteMatched("/x".to_string()).message(), "no route matched path /x");
}

#[test]
fn added_route_is_matched_at_its_path() {
    let mut r: Router<&str> = Router::new();
    r.add_route(vec!["api.example.com".to_string()], "/v1", "v1").unwrap();
    r.add_route(vec!["*.example.com".to_string()], "/v1/users", "users").unwrap();
    r.add_route(vec!["other.test".to_string()], "/v1/users/me", "me").unwrap();
    // The added route serves its own path, unless a longer route also serves it.
    assert_eq!(r.match_route("API.example.com", "/v1").unwrap().kind, "v1");
    assert_eq!(r.match_route("api.example.com", "/v1/users").unwrap().kind, "users");
    assert_eq!(r.match_route("other.test", "/v1/users/me").unwrap().kind, "me");
    // A host the route does not cover falls through to another route or none.
    assert!(matches!(r.match_route("example.com", "/v1"), Err(RouterError::NoRouteMatched(_))));
}

fn route(listener: &str, hosts: &[&str], path: &str, target: &'static str) -> snakeway::runtime::routers::RouteConfigEntry<&'static str> {
    snakeway::runtime::routers::RouteConfigEntry {
        listener: listener.to_string(),
        hosts: hosts.iter().map(|h| h.to_string()).collect(),
        path: path.to_string(),
        target,
    }
}

#[test]
fn routers_are_built_per_listener() {
    let routes = vec![
        route("public", &["*"], "/", "home"),
        route("admin", &["admin.test"], "/", "admin"),
        route("public", &["*"], "/api", "api"),
    ];
    let routers = snakeway::runtime::routers::build_runtime_routers(routes).unwrap();
    assert_eq!(routers.len(), 2);
    assert_eq!(routers[0].0, "public");
    assert_eq!(routers[1].0, "admin");
    assert_eq!(routers[0].1.len(), 2);
    assert_eq!(routers[1].1.len(), 1);
    assert_eq!(routers[0].1.match_route("x.test", "/api/v1").unwrap().kind, "api");
    assert_eq!(routers[1].1.match_route("admin.test", "/users").unwrap().kind, "admin");
}

#[test]
fn the_same_path_may_serve_two_listeners() {
    let routes = vec![route("a", &["*"], "/x", "ax"), route("b", &["*"], "/x", "bx")];
    let routers = snakeway::runtime::routers::build_runtime_routers(routes).unwrap();
    assert_eq!(routers.len(), 2);
}

#[test]
fn the_first_refused_route_ends_the_build() {
    let dup = vec![route("a", &["*"], "/x", "1"), route("a", &["*"], "/x", "2"), route("a", &["*"], "bad", "3")];
    assert_eq!(
        snakeway::runtime::routers::build_runtime_routers(dup).err(),
        Some(RouterError::DuplicateRoutePath("/x".to_string()))
    );
    let bad = vec![route("a", &["*"], "bad", "1"), route("a", &["*"], "/x", "2"), route("a", &["*"], "/x", "3")];
    assert_eq!(
        snakeway::runtime::routers::build_runtime_routers(bad).err(),
        Some(RouterError::InvalidRoutePath("bad".to_string()))
    );
}
