//! The router: an ordered table of routes, searched for the first that matches.
use vstd::prelude::*;
use crate::Error;
use crate::matcher::{bindings_view, match_route};
use crate::request::{RequestView, RouteRequest};
use crate::route::{Route, RouteView};

verus! {

/// The routes in declaration order. Built once, shared by every request.
#[derive(Debug, Clone)]
pub struct ShellRouter {
    pub routes: Vec<Route>,
}

/// Why the router produced no response of the handler's own.
#[derive(Debug)]
pub enum RouterError {
    RouteNotFound,
    RouteSpawnFailed(Error),
    UnsupportedMethod(String),
}

/// Routes as text.
pub open spec fn routes_view(v: Seq<Route>) -> Seq<RouteView> {
    v.map_values(|r: Route| r@)
}

/// Route `i` is the first that matches the request.
pub open spec fn is_first_match(routes: Seq<RouteView>, req: RequestView, i: int) -> bool {
    &&& 0 <= i < routes.len()
    &&& match_route(routes[i], req) is Some
    &&& forall|j: int| 0 <= j < i ==> match_route(#[trigger] routes[j], req) is None
}

/// The position of the first route that matches the request, if any.
pub open spec fn first_match(routes: Seq<RouteView>, req: RequestView) -> Option<int> {
    if exists|i: int| is_first_match(routes, req, i) {
        Some(choose|i: int| is_first_match(routes, req, i))
    } else {
        None
    }
}

impl ShellRouter {
    /// A router over the routes, tried in the order given.
    pub fn new(routes: Vec<Route>) -> (r: ShellRouter)
        ensures
            r.routes@ == routes@,
    {
        ShellRouter { routes }
    }

    /// The first route, in declaration order, that matches the request, with
    /// its bindings; no route is found when none matches.
    pub fn find_route<'a>(&'a self, req: &RouteRequest) -> (r: Result<
        (&'a Route, Vec<(&'a String, String)>),
        RouterError,
    >)
        ensures
            match r {
                Ok((route, bs)) => match first_match(routes_view(self.routes@), req@) {
                    Some(i) => *route == self.routes@[i] && match_route(route@, req@) == Some(
                        bindings_view(bs@),
                    ),
                    None => false,
                },
                Err(e) => e is RouteNotFound && first_match(routes_view(self.routes@), req@) is None,
            },
    {
        let ghost rv = routes_view(self.routes@);
        let mut i: usize = 0;
        while i < self.routes.len()
            invariant
                rv == routes_view(self.routes@),
                i <= self.routes@.len(),
                forall|j: int| 0 <= j < i ==> match_route(#[trigger] rv[j], req@) is None,
            decreases self.routes@.len() - i,
        {
            let route = &self.routes[i];
            match route.matches(req) {
                Some(bs) => {
                    assert(is_first_match(rv, req@, i as int));
                    return Ok((route, bs));
                },
                None => {},
            }
            i = i + 1;
        }
        assert forall|j: int| !is_first_match(rv, req@, j) by {
            if 0 <= j < rv.len() {
                assert(match_route(rv[j], req@) is None);
            }
        }
        Err(RouterError::RouteNotFound)
    }
}

} // verus!
