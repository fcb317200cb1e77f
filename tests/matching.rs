use shell_serve::route::{Route, RouteRequest};

fn bindings(route: &str, req: RouteRequest) -> Option<Vec<(String, String)>> {
    let route = Route::from_str(route).unwrap();
    route
        .matches(&req)
        .map(|bs| bs.into_iter().map(|(n, v)| (n.clone(), v)).collect())
}

fn req(s: &str) -> RouteRequest {
    RouteRequest::from_str(s).unwrap()
}

fn pairs(ps: &[(&str, &str)]) -> Vec<(String, String)> {
    ps.iter().map(|(a, b)| (a.to_string(), b.to_string())).collect()
}

#[test]
fn route_without_query_constraint_ignores_query() {
    assert_eq!(bindings("GET:/a h", req("GET:/a?x=1&y=2")), Some(vec![]));
    assert_eq!(bindings("GET:/a h", req("GET:/a")), Some(vec![]));
    let with_headers = req("GET:/a").with_headers(pairs(&[("X", "1")]));
    assert_eq!(bindings("GET:/a h", with_headers), Some(vec![]));
}

#[test]
fn literal_route_is_equality() {
    let route = "GET:/a/b?x=1&y=2 h";
    assert_eq!(bindings(route, req("GET:/a/b?y=2&x=1")), Some(vec![]));
    assert_eq!(bindings(route, req("GET:/a/b?x=1")), None);
    assert_eq!(bindings(route, req("GET:/a/b?x=1&y=2&z=3")), None);
    assert_eq!(bindings(route, req("GET:/a/b?x=1&y=3")), None);
    assert_eq!(bindings(route, req("GET:/a/c?x=1&y=2")), None);
    assert_eq!(bindings(route, req("POST:/a/b?x=1&y=2")), None);
    assert_eq!(bindings(route, req("GET:/a//b/?x=1&y=2")), Some(vec![]));
}

#[test]
fn catch_all_binds_remaining_or_empty() {
    assert_eq!(bindings("GET:/{a}/{r..} h", req("GET:/x")), Some(pairs(&[("a", "x"), ("r", "")])));
    assert_eq!(
        bindings("GET:/{a}/{r..} h", req("GET:/x/y/z")),
        Some(pairs(&[("a", "x"), ("r", "y/z")]))
    );
    assert_eq!(bindings("GET:/{a}/{r..} h", req("GET:/")), None);
}

#[test]
fn satisfying_request_binds_names_in_order() {
    let r = req("GET:/u/7?k=8").with_headers(pairs(&[("H", "9")]));
    assert_eq!(
        bindings("GET:/u/{id}?k={v}#H={h} handler", r),
        Some(pairs(&[("id", "7"), ("v", "8"), ("h", "9")]))
    );
}

#[test]
fn header_constraint_requires_exact_set() {
    let route = "GET:/a#X=1 h";
    assert_eq!(bindings(route, req("GET:/a").with_headers(pairs(&[("X", "1")]))), Some(vec![]));
    assert_eq!(bindings(route, req("GET:/a")), None);
    assert_eq!(bindings(route, req("GET:/a").with_headers(pairs(&[("X", "1"), ("Y", "2")]))), None);
}

#[test]
fn optional_query_binds_value_when_present() {
    assert_eq!(
        bindings("GET:/?p={v*} h", req("GET:/?p=3")),
        Some(pairs(&[("v", "3")]))
    );
}

#[test]
fn repeated_query_values_are_joined() {
    let r = req("GET:/a?x=1&x=2");
    assert_eq!(r.query, pairs(&[("x", "1,2")]));
    assert!(r.headers.is_empty());
}
