use shell_serve::config::{parse_routes, pick_setting, route_spec_text};
use shell_serve::route::{Method, PathPart, QueryPart, Route, RoutePart, RouteRequest};
use shell_serve::side_channel::{parse_header, parse_status_code, response_head};
use shell_serve::Error;

#[test]
fn methods_are_upper_case_tokens() {
    assert!(matches!(Method::from_str("GET"), Ok(Method::Get)));
    assert!(matches!(Method::from_str("PUT"), Ok(Method::Put)));
    assert!(matches!(Method::from_str("POST"), Ok(Method::Post)));
    assert!(matches!(Method::from_str("DELETE"), Ok(Method::Delete)));
    assert!(matches!(Method::from_str("get"), Err(Error::InvalidMethod(m)) if m == "get"));
}

#[test]
fn route_errors() {
    assert!(matches!(Route::from_str("GET/foo h"), Err(Error::InvalidRoute(_))));
    assert!(matches!(Route::from_str("GET:/foo"), Err(Error::InvalidRoute(_))));
    assert!(matches!(Route::from_str("FOO:/a h"), Err(Error::InvalidMethod(m)) if m == "FOO"));
    assert!(matches!(Route::from_str("GET:/{abc h"), Err(Error::InvalidPathPart(t)) if t == "{abc"));
    assert!(matches!(Route::from_str("GET:/a?x h"), Err(Error::InvalidRoute(_))));
    assert!(matches!(Route::from_str("GET:/a?x={y..} h"), Err(Error::InvalidPathPart(t)) if t == "{y..}"));
    assert!(matches!(RouteRequest::from_str("GET/a"), Err(Error::InvalidRoute(_))));
    assert!(matches!(RouteRequest::from_str("PATCH:/a"), Err(Error::InvalidMethod(_))));
}

#[test]
fn route_parts_and_handler() {
    let route = Route::from_str("DELETE:/a/{b*}/{c..}?k=v&{q..}#H={h} run  two spaces").unwrap();
    assert_eq!(route.method, Method::Delete);
    assert_eq!(route.path, vec![
        PathPart::Entry(RoutePart::Literal("a".to_string())),
        PathPart::Entry(RoutePart::NamedOptional("b".to_string())),
        PathPart::CatchAll("c".to_string()),
    ]);
    assert_eq!(route.query, Some(vec![
        QueryPart::KeyValue("k".to_string(), RoutePart::Literal("v".to_string())),
        QueryPart::CatchAll("q".to_string()),
    ]));
    assert_eq!(route.headers, Some(vec![
        QueryPart::KeyValue("H".to_string(), RoutePart::Named("h".to_string())),
    ]));
    assert_eq!(route.handler, "run  two spaces");
    assert_eq!(Route::from_str("GET:/ h").unwrap().query, None);
}

#[test]
fn header_lines() {
    assert_eq!(parse_header(" Name :  a: b ").unwrap(), ("Name".to_string(), "a: b".to_string()));
    assert!(matches!(parse_header("no colon"), Err(Error::InvalidHeader(l)) if l == "no colon"));
    let head = response_head("\n\nX: 1\r\nY:2", false).unwrap();
    assert_eq!(head.status, 500);
    assert_eq!(head.headers, vec![("X".to_string(), "1".to_string()), ("Y".to_string(), "2".to_string())]);
    assert!(matches!(response_head("bad line\n", true), Err(Error::InvalidHeader(l)) if l == "bad line"));
}

#[test]
fn status_codes() {
    assert_eq!(parse_status_code("201"), Some(201));
    assert_eq!(parse_status_code("+204"), Some(204));
    assert_eq!(parse_status_code("999"), Some(999));
    assert_eq!(parse_status_code("100"), Some(100));
    assert_eq!(parse_status_code("99"), None);
    assert_eq!(parse_status_code("1000"), None);
    assert_eq!(parse_status_code("70000"), None);
    assert_eq!(parse_status_code(""), None);
    assert_eq!(parse_status_code("+"), None);
    assert_eq!(parse_status_code("20x"), None);
    assert!(matches!(response_head("Status: abc\n", true), Err(Error::InvalidStatus(s)) if s == "abc"));
    assert!(matches!(response_head("Status: 1000", true), Err(Error::InvalidStatus(_))));
    let head = response_head("Status: 404\nStatus: 201\nA: b\n", true).unwrap();
    assert_eq!(head.status, 404);
    assert_eq!(head.headers, vec![("A".to_string(), "b".to_string())]);
}

#[test]
fn config_helpers() {
    assert_eq!(route_spec_text("GET", "/a/{b}", "/bin/echo ${b}"), "GET:/a/{b} /bin/echo ${b}");
    let ok = parse_routes(&vec!["GET:/a h".to_string(), "PUT:/b h2".to_string()]).unwrap();
    assert_eq!(ok.len(), 2);
    assert_eq!(ok[1].method, Method::Put);
    let err = parse_routes(&vec!["GET:/a h".to_string(), "BAD:/b h".to_string(), "x".to_string()]);
    assert!(matches!(err, Err(Error::InvalidMethod(m)) if m == "BAD"));
    assert_eq!(pick_setting(Some(1u16), Some(2), 3), 1);
    assert_eq!(pick_setting(None, Some(2u16), 3), 2);
    assert_eq!(pick_setting(None::<u16>, None, 3), 3);
}
