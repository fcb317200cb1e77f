//! The decisions of the HTTP adapter: how an HTTP request becomes a request
//! descriptor, when its body is streamed to the handler, and which status an
//! error is answered with.
use vstd::prelude::*;
use crate::request::{joined_query, lists_query, mapping_from, mapping_of, pairs_view, RouteRequest};
use crate::route::{method_named, Method};
use crate::router::RouterError;
use crate::url::query_values_of;

verus! {

/// The request descriptor for an HTTP request's method, path, raw query
/// string and headers. A method the routes cannot name is not supported.
pub fn to_route_req(method: &str, path: &str, query: Option<&str>, headers: Vec<(String, String)>) -> (r: Result<RouteRequest, RouterError>)
    ensures
        match r {
            Ok(req) => {
                &&& method_named(method@) == Some(req.method)
                &&& req.path@ == path@
                &&& match query {
                    Some(q) => lists_query(req@.query, query_values_of(q@)),
                    None => req@.query.len() == 0,
                }
                &&& req@.headers == mapping_of(pairs_view(headers@))
            },
            Err(e) => method_named(method@) is None && (e matches RouterError::UnsupportedMethod(m)
                && m@ == method@),
        },
{
    let method = match Method::from_str(method) {
        Ok(m) => m,
        Err(_) => {
            return Err(RouterError::UnsupportedMethod(method.to_owned()));
        },
    };
    let query = match query {
        Some(q) => joined_query(q),
        None => Vec::new(),
    };
    Ok(RouteRequest { method, path: path.to_owned(), query, headers: mapping_from(headers) })
}

/// The HTTP status that answers a router error.
pub open spec fn error_status_code(e: RouterError) -> u16 {
    match e {
        RouterError::UnsupportedMethod(_) => 405,
        RouterError::RouteNotFound => 404,
        RouterError::RouteSpawnFailed(_) => 500,
    }
}

/// The HTTP status that answers a router error: 405 for an unsupported method,
/// 404 when no route matches, 500 otherwise.
pub fn error_status(e: &RouterError) -> (r: u16)
    ensures
        r == error_status_code(*e),
{
    match e {
        RouterError::UnsupportedMethod(_) => 405,
        RouterError::RouteNotFound => 404,
        RouterError::RouteSpawnFailed(_) => 500,
    }
}

/// Whether a request body is streamed to the handler: when the upper bound of
/// its size is known and above zero.
pub fn streams_body(upper_size_hint: Option<u64>) -> (r: bool)
    ensures
        r == (upper_size_hint matches Some(n) && n > 0),
{
    match upper_size_hint {
        Some(n) => n > 0,
        None => false,
    }
}

} // verus!
