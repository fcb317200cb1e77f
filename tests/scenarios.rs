use shell_serve::expand::{lookup_binding, CommandLine};
use shell_serve::route::{Route, RouteRequest};
use shell_serve::router::{RouterError, ShellRouter};
use shell_serve::service::{error_status, streams_body, to_route_req};
use shell_serve::side_channel::response_head;

fn router(specs: &[&str]) -> ShellRouter {
    ShellRouter::new(specs.iter().map(|s| Route::from_str(s).unwrap()).collect())
}

fn command_for(router: &ShellRouter, req: &str) -> CommandLine {
    let req = RouteRequest::from_str(req).unwrap();
    let (route, params) = router.find_route(&req).unwrap();
    route.get_command(params)
}

#[test]
fn simple_get_runs_echo_with_bound_name() {
    let r = router(&["GET:/hello/{name} /bin/echo hi ${name}"]);
    let cmd = command_for(&r, "GET:/hello/world");
    assert_eq!(cmd.program, "/bin/echo");
    assert_eq!(cmd.args, vec!["hi".to_string(), "world".to_string()]);
    let head = response_head("", true).unwrap();
    assert_eq!(head.status, 200);
    assert!(head.headers.is_empty());
}

#[test]
fn catch_all_path_binds_remaining_segments() {
    let r = router(&["GET:/files/{p..} /bin/echo ${p}"]);
    let cmd = command_for(&r, "GET:/files/a/b/c.txt");
    assert_eq!(cmd.program, "/bin/echo");
    assert_eq!(cmd.args, vec!["a/b/c.txt".to_string()]);
}

#[test]
fn query_binding_with_catch_all_query() {
    let r = router(&["GET:/q?x={x}&{rest..} /bin/echo ${x}|${rest}"]);
    let cmd = command_for(&r, "GET:/q?x=1&y=2&z=3");
    assert_eq!(cmd.args.len(), 1);
    let arg = cmd.args[0].as_str();
    assert!(arg == "1|y=2&z=3" || arg == "1|z=3&y=2", "unexpected argument {arg}");
}

#[test]
fn put_streams_body_to_cat() {
    let r = router(&["PUT:/echo /bin/cat"]);
    let cmd = command_for(&r, "PUT:/echo");
    assert_eq!(cmd.program, "/bin/cat");
    assert!(cmd.args.is_empty());
    assert!(streams_body(Some(5)));
    assert!(!streams_body(Some(0)));
    assert!(!streams_body(None));
}

#[test]
fn handler_supplies_status_and_header() {
    let r = router(&["POST:/make /usr/local/bin/handler"]);
    let cmd = command_for(&r, "POST:/make");
    assert_eq!(cmd.program, "/usr/local/bin/handler");
    let head = response_head("Status: 201\nLocation: /thing/42\n", true).unwrap();
    assert_eq!(head.status, 201);
    assert_eq!(head.headers, vec![("Location".to_string(), "/thing/42".to_string())]);
}

#[test]
fn no_route_matches_gives_not_found() {
    let r = router(&["GET:/a /bin/true"]);
    let req = RouteRequest::from_str("GET:/b").unwrap();
    let err = r.find_route(&req).unwrap_err();
    assert!(matches!(err, RouterError::RouteNotFound));
    assert_eq!(error_status(&err), 404);
}

#[test]
fn first_matching_route_wins() {
    let r = router(&["GET:/a/{x} /bin/first ${x}", "GET:/{p..} /bin/second ${p}"]);
    assert_eq!(command_for(&r, "GET:/a/1").program, "/bin/first");
    assert_eq!(command_for(&r, "GET:/b/1").program, "/bin/second");
    assert_eq!(command_for(&r, "GET:/b/1").args, vec!["b/1".to_string()]);
}

#[test]
fn unsupported_method_gives_method_not_allowed() {
    let err = to_route_req("PATCH", "/a", None, vec![]).unwrap_err();
    assert!(matches!(&err, RouterError::UnsupportedMethod(m) if m == "PATCH"));
    assert_eq!(error_status(&err), 405);
    let err = RouterError::RouteSpawnFailed(shell_serve::Error::RouteIoOpen);
    assert_eq!(error_status(&err), 500);
}

#[test]
fn http_request_becomes_descriptor() {
    let req = to_route_req(
        "GET",
        "/a/b",
        Some("x=1&x=2&y=3"),
        vec![
            ("A".to_string(), "1".to_string()),
            ("B".to_string(), "2".to_string()),
            ("A".to_string(), "3".to_string()),
        ],
    )
    .unwrap();
    assert_eq!(req.path, "/a/b");
    let mut query = req.query.clone();
    query.sort();
    assert_eq!(query, vec![("x".to_string(), "1,2".to_string()), ("y".to_string(), "3".to_string())]);
    assert_eq!(req.headers, vec![("A".to_string(), "3".to_string()), ("B".to_string(), "2".to_string())]);
}

#[test]
fn unknown_variable_expands_to_empty_text() {
    let route = Route::from_str("GET:/ /bin/echo [${nope}] $$").unwrap();
    let req = RouteRequest::from_str("GET:/").unwrap();
    let params = route.matches(&req).unwrap();
    let cmd = route.get_command(params);
    assert_eq!(cmd.args[0], "[]");
}

#[test]
fn last_binding_of_a_name_wins() {
    let a = "a".to_string();
    let bs = vec![(&a, "1".to_string()), (&a, "2".to_string())];
    assert_eq!(lookup_binding(&bs, "a"), "2");
    assert_eq!(lookup_binding(&bs, "b"), "");
    let route = Route::from_str("GET:/{a}/{a} /bin/echo ${a}").unwrap();
    let req = RouteRequest::from_str("GET:/x/y").unwrap();
    let cmd = route.get_command(route.matches(&req).unwrap());
    assert_eq!(cmd.args, vec!["y".to_string()]);
}

#[test]
fn expansion_without_dollar_is_stable() {
    let route = Route::from_str("GET:/{x} /bin/echo plain words").unwrap();
    let req = RouteRequest::from_str("GET:/v").unwrap();
    let first = route.get_command(route.matches(&req).unwrap());
    assert_eq!(first.args, vec!["plain".to_string(), "words".to_string()]);
    let again = format!("GET:/{{x}} {} {}", first.program, first.args.join(" "));
    let route2 = Route::from_str(&again).unwrap();
    let second = route2.get_command(route2.matches(&req).unwrap());
    assert_eq!(second, first);
}
