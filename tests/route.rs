use shell_serve::route::{Method, PathPart, QueryPart, Route, RoutePart, RouteRequest};

#[test]
fn test_route_parse() {
    let route = Route::from_str("GET:/foo/{file} handler_get_foo.sh ${file}");
    assert!(route.is_ok());
    let route = route.unwrap();

    assert_eq!(route.method, Method::Get);
    assert_eq!(route.path, vec![
        PathPart::Entry(RoutePart::Literal("foo".to_string())),
        PathPart::Entry(RoutePart::Named("file".to_string()))
    ]);
    assert_eq!(route.handler, "handler_get_foo.sh ${file}");
}

#[test]
fn test_route_parse_optional() {
    let route = Route::from_str("GET:/{file*}?bar={foo*} handler.sh ${file} ${foo}");
    assert!(route.is_ok());
    let route = route.unwrap();

    assert_eq!(route.path, vec![
        PathPart::Entry(RoutePart::NamedOptional("file".to_string()))
    ]);
    assert_eq!(route.query, Some(vec![
        QueryPart::KeyValue("bar".to_string(), RoutePart::NamedOptional("foo".to_string()))
    ]));
}

#[test]
fn test_route_match_literal() {
    let route = Route::from_str("GET:/foo/{file} handler.sh ${file}");
    assert!(route.is_ok());
    let route = route.unwrap();

    assert_eq!(
        route.matches(&"GET:/foo/foo.txt".parse().unwrap()),
        Some(vec![(&String::from("file"), String::from("foo.txt"))])
    );
    assert_eq!(
        route.matches(&"GET:/bar/baz/foo.txt".parse().unwrap()),
        None
    );
    assert_eq!(
        route.matches(&"GET:/bar/foo.txt".parse().unwrap()),
        None
    );
    assert_eq!(
        route.matches(&"PUT:/foo/foo.txt".parse().unwrap()),
        None
    );
}

#[test]
fn test_route_match_query() {
    let route = Route::from_str("GET:/{path..}?foo={foo}&{query..} handler.sh ${path} ${foo}");
    assert!(route.is_ok());
    let route = route.unwrap();

    assert_eq!(
        route.matches(&"GET:/foo/bar/foo.txt?foo=bar".parse().unwrap()),
        Some(vec![
            (&String::from("path"), String::from("foo/bar/foo.txt")),
            (&String::from("foo"), String::from("bar")),
            (&String::from("query"), String::from("")),
        ])
    );

    assert_eq!(
        route.matches(&"GET:/foo/bar/foo.txt?foo=bar&baz=foo".parse().unwrap()),
        Some(vec![
            (&String::from("path"), String::from("foo/bar/foo.txt")),
            (&String::from("foo"), String::from("bar")),
            (&String::from("query"), String::from("baz=foo")),
        ])
    );

    assert_eq!(
        route.matches(&RouteRequest::from_str("GET:/foo/bar/foo.txt?baz=foo").unwrap()),
        None
    );
}

#[test]
fn test_route_match_catchall() {
    let route = Route::from_str("GET:/{path..} handler.sh ${path}");
    assert!(route.is_ok());
    let route = route.unwrap();

    assert_eq!(
        route.matches(&"GET:/foo/bar/foo.txt".parse().unwrap()),
        Some(vec![(&String::from("path"), String::from("foo/bar/foo.txt"))])
    );
}

#[test]
fn test_route_match_root() {
    let route = Route::from_str("GET:/ handler.sh");
    assert!(route.is_ok());
    let route = route.unwrap();

    assert_eq!(
        route.matches(&"GET:/".parse().unwrap()),
        Some(vec![])
    );

    assert_eq!(
        route.matches(&"GET:/file.txt".parse().unwrap()),
        None
    );
}

#[test]
fn test_route_match_short_path() {
    let route = Route::from_str("GET:/{path..}?{query..} handler.sh ${path} ${query}");
    assert!(route.is_ok());
    let route = route.unwrap();

    assert_eq!(
        route.matches(&"GET:/foo".parse().unwrap()),
        Some(vec![
            (&String::from("path"), String::from("foo")),
            (&String::from("query"), String::from(""))
        ])
    );
}

#[test]
fn test_route_match_headers() {
    let route = Route::from_str("GET:/{path..}?{query..}#{headers..} handler.sh ${path} ${query} ${headers}");
    assert!(route.is_ok());
    let route = route.unwrap();

    let req = RouteRequest::from_str("GET:/foo.txt?foo=bar").unwrap()
        .with_headers(vec![("X-Foo".to_string(), "bar".to_string())]);

    assert_eq!(
        route.matches(&req),
        Some(vec![
            (&String::from("path"), String::from("foo.txt")),
            (&String::from("query"), String::from("foo=bar")),
            (&String::from("headers"), String::from("X-Foo=bar"))
        ])
    );
}

#[test]
fn test_route_match_optional() {
    let route = Route::from_str("GET:/{file*}?param={val*} handler.sh ${file} ${val}");
    assert!(route.is_ok());
    let route = route.unwrap();

    let req = RouteRequest::from_str("GET:/").unwrap();

    assert_eq!(
        route.matches(&req),
        Some(vec![
            (&String::from("file"), String::from("")),
            (&String::from("val"), String::from(""))
        ])
    );
}
