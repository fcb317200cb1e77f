//! Settings and route lists gathered at startup from the command line and a
//! configuration file.
use vstd::prelude::*;
use crate::{Error, ErrorView};
use crate::route::{parse_route, Route, RouteView};
use crate::router::routes_view;
use crate::text::strings_view;

verus! {

/// The route specification for a route given as separate fields:
/// `method:path handler`.
pub fn route_spec_text(method: &str, path: &str, handler: &str) -> (r: String)
    ensures
        r@ == method@ + seq![':'] + path@ + seq![' '] + handler@,
{
    proof {
        reveal_strlit(":");
        reveal_strlit(" ");
        assert(":"@ =~= seq![':']);
        assert(" "@ =~= seq![' ']);
    }
    let mut r = method.to_owned();
    r.append(":");
    r.append(path);
    r.append(" ");
    r.append(handler);
    r
}

/// Every specification parsed as a route, in order; the first failure wins.
pub open spec fn parse_route_list(specs: Seq<Seq<char>>) -> Result<Seq<RouteView>, ErrorView>
    decreases specs.len(),
{
    if specs.len() == 0 {
        Ok(Seq::empty())
    } else {
        match parse_route_list(specs.drop_last()) {
            Err(e) => Err(e),
            Ok(rs) => match parse_route(specs.last()) {
                Err(e) => Err(e),
                Ok(r) => Ok(rs.push(r)),
            },
        }
    }
}

proof fn lemma_route_list_prefix_err(specs: Seq<Seq<char>>, k: int)
    requires
        0 <= k <= specs.len(),
        parse_route_list(specs.subrange(0, k)) is Err,
    ensures
        parse_route_list(specs) == parse_route_list(specs.subrange(0, k)),
    decreases specs.len() - k,
{
    if k < specs.len() {
        assert(specs.subrange(0, k + 1).drop_last() =~= specs.subrange(0, k));
        lemma_route_list_prefix_err(specs, k + 1);
    } else {
        assert(specs.subrange(0, k) =~= specs);
    }
}

/// Parses each route specification, in order.
pub fn parse_routes(specs: &Vec<String>) -> (r: Result<Vec<Route>, Error>)
    ensures
        match r {
            Ok(rs) => parse_route_list(strings_view(specs@)) == Ok::<Seq<RouteView>, ErrorView>(
                routes_view(rs@),
            ),
            Err(e) => parse_route_list(strings_view(specs@)) == Err::<Seq<RouteView>, ErrorView>(
                e@,
            ),
        },
{
    let ghost sv = strings_view(specs@);
    let mut out: Vec<Route> = Vec::new();
    let mut i: usize = 0;
    assert(sv.subrange(0, 0) =~= Seq::<Seq<char>>::empty());
    assert(routes_view(out@) =~= Seq::<RouteView>::empty());
    while i < specs.len()
        invariant
            sv == strings_view(specs@),
            i <= specs@.len(),
            parse_route_list(sv.subrange(0, i as int)) == Ok::<Seq<RouteView>, ErrorView>(
                routes_view(out@),
            ),
        decreases specs@.len() - i,
    {
        assert(sv.subrange(0, i + 1).drop_last() =~= sv.subrange(0, i as int));
        match Route::from_str(specs[i].as_str()) {
            Ok(route) => {
                let ghost before = out@;
                let ghost v = route@;
                out.push(route);
                assert(routes_view(out@) =~= routes_view(before).push(v));
            },
            Err(e) => {
                proof {
                    lemma_route_list_prefix_err(sv, i as int + 1);
                }
                return Err(e);
            },
        }
        i = i + 1;
    }
    assert(sv.subrange(0, specs@.len() as int) =~= sv);
    Ok(out)
}

/// A setting's value: the command line's if given there, else the
/// configuration file's if given there, else the default.
pub fn pick_setting<T>(from_cli: Option<T>, from_file: Option<T>, default: T) -> (r: T)
    ensures
        r == match (from_cli, from_file) {
            (Some(c), _) => c,
            (None, Some(f)) => f,
            (None, None) => default,
        },
{
    match from_cli {
        Some(c) => c,
        None => match from_file {
            Some(f) => f,
            None => default,
        },
    }
}

} // verus!
