//! Routes: the pattern language, its parser, and the matching of requests.
use vstd::prelude::*;
use crate::{Error, ErrorView};
use crate::text::{
    chars_of, segments, segments_of, split_on, split_once, split_once_at, split_pieces,
    strings_view, substring, text_eq,
};
use crate::url::{parse_url, url_parts_of};
pub use crate::request::RouteRequest;

verus! {

/// The HTTP methods a route can name.
#[derive(Debug, Clone, Copy, PartialEq, Eq, Structural)]
pub enum Method {
    Get,
    Put,
    Post,
    Delete,
}

/// The method that an upper-case token names, if any.
pub open spec fn method_named(s: Seq<char>) -> Option<Method> {
    if s == seq!['G', 'E', 'T'] {
        Some(Method::Get)
    } else if s == seq!['P', 'U', 'T'] {
        Some(Method::Put)
    } else if s == seq!['P', 'O', 'S', 'T'] {
        Some(Method::Post)
    } else if s == seq!['D', 'E', 'L', 'E', 'T', 'E'] {
        Some(Method::Delete)
    } else {
        None
    }
}

/// The result of parsing a method token.
pub open spec fn parse_method(s: Seq<char>) -> Result<Method, ErrorView> {
    match method_named(s) {
        Some(m) => Ok(m),
        None => Err(ErrorView::InvalidMethod(s)),
    }
}

impl Method {
    /// Parses `GET`, `PUT`, `POST` or `DELETE`; anything else is an invalid method.
    pub fn from_str(s: &str) -> (r: Result<Method, Error>)
        ensures
            result_view_method(r) == parse_method(s@),
    {
        proof {
            reveal_strlit("GET");
            reveal_strlit("PUT");
            reveal_strlit("POST");
            reveal_strlit("DELETE");
            assert("GET"@ =~= seq!['G', 'E', 'T']);
            assert("PUT"@ =~= seq!['P', 'U', 'T']);
            assert("POST"@ =~= seq!['P', 'O', 'S', 'T']);
            assert("DELETE"@ =~= seq!['D', 'E', 'L', 'E', 'T', 'E']);
        }
        if text_eq(s, "GET") {
            Ok(Method::Get)
        } else if text_eq(s, "PUT") {
            Ok(Method::Put)
        } else if text_eq(s, "POST") {
            Ok(Method::Post)
        } else if text_eq(s, "DELETE") {
            Ok(Method::Delete)
        } else {
            Err(Error::InvalidMethod(s.to_owned()))
        }
    }
}

impl std::str::FromStr for Method {
    type Err = Error;

    fn from_str(s: &str) -> Result<Method, Error> {
        Method::from_str(s)
    }
}

/// The view of a parsed method.
pub open spec fn result_view_method(r: Result<Method, Error>) -> Result<Method, ErrorView> {
    match r {
        Ok(m) => Ok(m),
        Err(e) => Err(e@),
    }
}

/// A leaf term of a pattern: a literal, or a name that binds what it matches.
#[derive(Debug, Clone, PartialEq, Eq)]
pub enum RoutePart {
    Literal(String),
    Named(String),
    NamedOptional(String),
}

/// A term of a route's path: one segment, or all remaining segments.
#[derive(Debug, Clone, PartialEq, Eq)]
pub enum PathPart {
    Entry(RoutePart),
    CatchAll(String),
}

/// A term of a route's query or header constraint: one key, or all remaining entries.
#[derive(Debug, Clone, PartialEq, Eq)]
pub enum QueryPart {
    KeyValue(String, RoutePart),
    CatchAll(String),
}

/// A leaf term as text.
pub enum PartView {
    Literal(Seq<char>),
    Named(Seq<char>),
    NamedOptional(Seq<char>),
}

/// A path term as text.
pub enum PathPartView {
    Entry(PartView),
    CatchAll(Seq<char>),
}

/// A query or header term as text.
pub enum QueryPartView {
    KeyValue(Seq<char>, PartView),
    CatchAll(Seq<char>),
}

impl View for RoutePart {
    type V = PartView;

    open spec fn view(&self) -> PartView {
        match self {
            RoutePart::Literal(s) => PartView::Literal(s@),
            RoutePart::Named(s) => PartView::Named(s@),
            RoutePart::NamedOptional(s) => PartView::NamedOptional(s@),
        }
    }
}

impl View for PathPart {
    type V = PathPartView;

    open spec fn view(&self) -> PathPartView {
        match self {
            PathPart::Entry(p) => PathPartView::Entry(p@),
            PathPart::CatchAll(s) => PathPartView::CatchAll(s@),
        }
    }
}

impl View for QueryPart {
    type V = QueryPartView;

    open spec fn view(&self) -> QueryPartView {
        match self {
            QueryPart::KeyValue(k, p) => QueryPartView::KeyValue(k@, p@),
            QueryPart::CatchAll(s) => QueryPartView::CatchAll(s@),
        }
    }
}

/// A token of the form `{name..}`.
pub open spec fn is_catch_all_token(t: Seq<char>) -> bool {
    &&& t.len() >= 4
    &&& t[0] == '{'
    &&& t[t.len() - 3] == '.'
    &&& t[t.len() - 2] == '.'
    &&& t[t.len() - 1] == '}'
}

/// The name inside a `{name..}` token.
pub open spec fn catch_all_name(t: Seq<char>) -> Seq<char> {
    t.subrange(1, t.len() - 3)
}

/// A leaf term: `{name}`, `{name*}` or a literal. A token that opens a brace
/// must close it, and may not be a `{name..}` token.
pub open spec fn parse_route_part(t: Seq<char>) -> Result<PartView, ErrorView> {
    if t.len() > 0 && t[0] == '{' {
        if t.len() >= 2 && t[t.len() - 1] == '}' && !is_catch_all_token(t) {
            if t.len() >= 3 && t[t.len() - 2] == '*' {
                Ok(PartView::NamedOptional(t.subrange(1, t.len() - 2)))
            } else {
                Ok(PartView::Named(t.subrange(1, t.len() - 1)))
            }
        } else {
            Err(ErrorView::InvalidPathPart(t))
        }
    } else {
        Ok(PartView::Literal(t))
    }
}

/// A path segment of a route: `{name..}` or a leaf term.
pub open spec fn parse_path_part(t: Seq<char>) -> Result<PathPartView, ErrorView> {
    if is_catch_all_token(t) {
        Ok(PathPartView::CatchAll(catch_all_name(t)))
    } else {
        match parse_route_part(t) {
            Ok(p) => Ok(PathPartView::Entry(p)),
            Err(e) => Err(e),
        }
    }
}

/// The message of a query or header entry without `=`.
pub open spec fn msg_no_key_value() -> Seq<char> {
    "invalid key=value entry in query"@
}

/// A query or header entry of a route: `{name..}` or `key=` followed by a leaf term.
pub open spec fn parse_query_part(t: Seq<char>) -> Result<QueryPartView, ErrorView> {
    if is_catch_all_token(t) {
        Ok(QueryPartView::CatchAll(catch_all_name(t)))
    } else {
        match split_once(t, '=') {
            None => Err(ErrorView::InvalidRoute(msg_no_key_value())),
            Some((k, v)) => match parse_route_part(v) {
                Ok(p) => Ok(QueryPartView::KeyValue(k, p)),
                Err(e) => Err(e),
            },
        }
    }
}

/// Whether the characters are a `{name..}` token.
fn catch_all_token(cs: &Vec<char>) -> (r: bool)
    ensures
        r == is_catch_all_token(cs@),
{
    let n = cs.len();
    n >= 4 && cs[0] == '{' && cs[n - 3] == '.' && cs[n - 2] == '.' && cs[n - 1] == '}'
}

impl RoutePart {
    /// Parses a leaf term.
    pub fn from_str(t: &str) -> (r: Result<RoutePart, Error>)
        ensures
            match r {
                Ok(p) => parse_route_part(t@) == Ok::<PartView, ErrorView>(p@),
                Err(e) => parse_route_part(t@) == Err::<PartView, ErrorView>(e@),
            },
    {
        let cs = chars_of(t);
        let n = cs.len();
        if n > 0 && cs[0] == '{' {
            if n >= 2 && cs[n - 1] == '}' && !catch_all_token(&cs) {
                if n >= 3 && cs[n - 2] == '*' {
                    Ok(RoutePart::NamedOptional(substring(t, 1, n - 2)))
                } else {
                    Ok(RoutePart::Named(substring(t, 1, n - 1)))
                }
            } else {
                Err(Error::InvalidPathPart(t.to_owned()))
            }
        } else {
            Ok(RoutePart::Literal(t.to_owned()))
        }
    }
}

impl PathPart {
    /// Parses a path segment of a route.
    pub fn from_str(t: &str) -> (r: Result<PathPart, Error>)
        ensures
            match r {
                Ok(p) => parse_path_part(t@) == Ok::<PathPartView, ErrorView>(p@),
                Err(e) => parse_path_part(t@) == Err::<PathPartView, ErrorView>(e@),
            },
    {
        let cs = chars_of(t);
        if catch_all_token(&cs) {
            Ok(PathPart::CatchAll(substring(t, 1, cs.len() - 3)))
        } else {
            match RoutePart::from_str(t) {
                Ok(p) => Ok(PathPart::Entry(p)),
                Err(e) => Err(e),
            }
        }
    }
}

impl QueryPart {
    /// Parses a query or header entry of a route.
    pub fn from_str(t: &str) -> (r: Result<QueryPart, Error>)
        ensures
            match r {
                Ok(p) => parse_query_part(t@) == Ok::<QueryPartView, ErrorView>(p@),
                Err(e) => parse_query_part(t@) == Err::<QueryPartView, ErrorView>(e@),
            },
    {
        let cs = chars_of(t);
        if catch_all_token(&cs) {
            Ok(QueryPart::CatchAll(substring(t, 1, cs.len() - 3)))
        } else {
            match split_once_at(t, '=') {
                None => Err(Error::InvalidRoute("invalid key=value entry in query".to_owned())),
                Some((k, v)) => match RoutePart::from_str(v.as_str()) {
                    Ok(p) => Ok(QueryPart::KeyValue(k, p)),
                    Err(e) => Err(e),
                },
            }
        }
    }
}

/// A route: a method, path terms, optional query and header constraints, and
/// the handler's command template.
#[derive(Debug, Clone)]
pub struct Route {
    pub method: Method,
    pub path: Vec<PathPart>,
    pub query: Option<Vec<QueryPart>>,
    pub headers: Option<Vec<QueryPart>>,
    pub handler: String,
}

/// A route as text: what its terms and handler say.
pub struct RouteView {
    pub method: Method,
    pub path: Seq<PathPartView>,
    pub query: Option<Seq<QueryPartView>>,
    pub headers: Option<Seq<QueryPartView>>,
    pub handler: Seq<char>,
}

/// Path terms as text.
pub open spec fn path_parts_view(v: Seq<PathPart>) -> Seq<PathPartView> {
    v.map_values(|p: PathPart| p@)
}

/// Query or header terms as text.
pub open spec fn query_parts_view(v: Seq<QueryPart>) -> Seq<QueryPartView> {
    v.map_values(|p: QueryPart| p@)
}

/// An optional query or header constraint as text.
pub open spec fn constraint_view(o: Option<Vec<QueryPart>>) -> Option<Seq<QueryPartView>> {
    match o {
        Some(v) => Some(query_parts_view(v@)),
        None => None,
    }
}

impl View for Route {
    type V = RouteView;

    open spec fn view(&self) -> RouteView {
        RouteView {
            method: self.method,
            path: path_parts_view(self.path@),
            query: constraint_view(self.query),
            headers: constraint_view(self.headers),
            handler: self.handler@,
        }
    }
}

/// The path terms of a route, each segment parsed in order; the first failure wins.
pub open spec fn parse_path_parts(ts: Seq<Seq<char>>) -> Result<Seq<PathPartView>, ErrorView>
    decreases ts.len(),
{
    if ts.len() == 0 {
        Ok(Seq::empty())
    } else {
        match parse_path_parts(ts.drop_last()) {
            Err(e) => Err(e),
            Ok(ps) => match parse_path_part(ts.last()) {
                Err(e) => Err(e),
                Ok(p) => Ok(ps.push(p)),
            },
        }
    }
}

/// The query or header terms of a route, each entry parsed in order; the first failure wins.
pub open spec fn parse_query_parts(ts: Seq<Seq<char>>) -> Result<Seq<QueryPartView>, ErrorView>
    decreases ts.len(),
{
    if ts.len() == 0 {
        Ok(Seq::empty())
    } else {
        match parse_query_parts(ts.drop_last()) {
            Err(e) => Err(e),
            Ok(ps) => match parse_query_part(ts.last()) {
                Err(e) => Err(e),
                Ok(p) => Ok(ps.push(p)),
            },
        }
    }
}

/// A query or header constraint: absent, or its `&`-separated entries.
pub open spec fn parse_constraint(o: Option<Seq<char>>) -> Result<Option<Seq<QueryPartView>>, ErrorView> {
    match o {
        None => Ok(None),
        Some(t) => match parse_query_parts(split_on(t, '&')) {
            Ok(ps) => Ok(Some(ps)),
            Err(e) => Err(e),
        },
    }
}

/// The message of a specification without `:`.
pub open spec fn msg_no_method_separator() -> Seq<char> {
    "missing method separator (:)"@
}

/// The message of a specification without a space before its handler.
pub open spec fn msg_no_handler_separator() -> Seq<char> {
    "missing handler separator (space)"@
}

/// A route specification `METHOD:uri handler`. The uri's path is split on `/`
/// with empty segments dropped, its query and fragment (the header constraint)
/// on `&`. Missing separators are reported first.
pub open spec fn parse_route(s: Seq<char>) -> Result<RouteView, ErrorView> {
    match split_once(s, ':') {
        None => Err(ErrorView::InvalidRoute(msg_no_method_separator())),
        Some((m, rest)) => match split_once(rest, ' ') {
            None => Err(ErrorView::InvalidRoute(msg_no_handler_separator())),
            Some((uri, handler)) => route_from_parts(m, url_parts_of(uri), handler),
        },
    }
}

/// A route from its method token, the path, query and fragment of its uri,
/// and its handler template. Failures are reported in this order: query,
/// headers, method, path.
pub open spec fn route_from_parts(
    m: Seq<char>,
    uri: (Seq<char>, Option<Seq<char>>, Option<Seq<char>>),
    handler: Seq<char>,
) -> Result<RouteView, ErrorView> {
    let (path, query, fragment) = uri;
    match parse_constraint(query) {
        Err(e) => Err(e),
        Ok(q) => match parse_constraint(fragment) {
            Err(e) => Err(e),
            Ok(h) => match parse_method(m) {
                Err(e) => Err(e),
                Ok(method) => match parse_path_parts(segments(path, '/')) {
                    Err(e) => Err(e),
                    Ok(p) => Ok(RouteView { method, path: p, query: q, headers: h, handler }),
                },
            },
        },
    }
}

/// Parses each segment as a path term, in order.
fn parse_path_list(ts: &Vec<String>) -> (r: Result<Vec<PathPart>, Error>)
    ensures
        match r {
            Ok(v) => parse_path_parts(strings_view(ts@)) == Ok::<Seq<PathPartView>, ErrorView>(
                path_parts_view(v@),
            ),
            Err(e) => parse_path_parts(strings_view(ts@)) == Err::<Seq<PathPartView>, ErrorView>(
                e@,
            ),
        },
{
    let mut out: Vec<PathPart> = Vec::new();
    let mut i: usize = 0;
    assert(path_parts_view(out@) =~= Seq::<PathPartView>::empty());
    assert(strings_view(ts@).subrange(0, 0) =~= Seq::<Seq<char>>::empty());
    while i < ts.len()
        invariant
            i <= ts@.len(),
            parse_path_parts(strings_view(ts@).subrange(0, i as int)) == Ok::<
                Seq<PathPartView>,
                ErrorView,
            >(path_parts_view(out@)),
        decreases ts@.len() - i,
    {
        assert(strings_view(ts@).subrange(0, i + 1).drop_last() =~= strings_view(ts@).subrange(
            0,
            i as int,
        ));
        match PathPart::from_str(ts[i].as_str()) {
            Ok(p) => {
                assert(path_parts_view(out@.push(p)) =~= path_parts_view(out@).push(p@));
                out.push(p);
            },
            Err(e) => {
                proof {
                    lemma_parse_path_parts_prefix_err(strings_view(ts@), i as int + 1);
                }
                return Err(e);
            },
        }
        i = i + 1;
    }
    assert(strings_view(ts@).subrange(0, ts@.len() as int) =~= strings_view(ts@));
    Ok(out)
}

/// A failure in a prefix is the failure of the whole.
proof fn lemma_parse_path_parts_prefix_err(ts: Seq<Seq<char>>, k: int)
    requires
        0 <= k <= ts.len(),
        parse_path_parts(ts.subrange(0, k)) is Err,
    ensures
        parse_path_parts(ts) == parse_path_parts(ts.subrange(0, k)),
    decreases ts.len() - k,
{
    if k < ts.len() {
        assert(ts.subrange(0, k + 1).drop_last() =~= ts.subrange(0, k));
        lemma_parse_path_parts_prefix_err(ts, k + 1);
    } else {
        assert(ts.subrange(0, k) =~= ts);
    }
}

/// A failure in a prefix is the failure of the whole.
proof fn lemma_parse_query_parts_prefix_err(ts: Seq<Seq<char>>, k: int)
    requires
        0 <= k <= ts.len(),
        parse_query_parts(ts.subrange(0, k)) is Err,
    ensures
        parse_query_parts(ts) == parse_query_parts(ts.subrange(0, k)),
    decreases ts.len() - k,
{
    if k < ts.len() {
        assert(ts.subrange(0, k + 1).drop_last() =~= ts.subrange(0, k));
        lemma_parse_query_parts_prefix_err(ts, k + 1);
    } else {
        assert(ts.subrange(0, k) =~= ts);
    }
}

/// Parses each entry as a query or header term, in order.
fn parse_query_list(ts: &Vec<String>) -> (r: Result<Vec<QueryPart>, Error>)
    ensures
        match r {
            Ok(v) => parse_query_parts(strings_view(ts@)) == Ok::<Seq<QueryPartView>, ErrorView>(
                query_parts_view(v@),
            ),
            Err(e) => parse_query_parts(strings_view(ts@)) == Err::<Seq<QueryPartView>, ErrorView>(
                e@,
            ),
        },
{
    let mut out: Vec<QueryPart> = Vec::new();
    let mut i: usize = 0;
    assert(query_parts_view(out@) =~= Seq::<QueryPartView>::empty());
    assert(strings_view(ts@).subrange(0, 0) =~= Seq::<Seq<char>>::empty());
    while i < ts.len()
        invariant
            i <= ts@.len(),
            parse_query_parts(strings_view(ts@).subrange(0, i as int)) == Ok::<
                Seq<QueryPartView>,
                ErrorView,
            >(query_parts_view(out@)),
        decreases ts@.len() - i,
    {
        assert(strings_view(ts@).subrange(0, i + 1).drop_last() =~= strings_view(ts@).subrange(
            0,
            i as int,
        ));
        match QueryPart::from_str(ts[i].as_str()) {
            Ok(p) => {
                assert(query_parts_view(out@.push(p)) =~= query_parts_view(out@).push(p@));
                out.push(p);
            },
            Err(e) => {
                proof {
                    lemma_parse_query_parts_prefix_err(strings_view(ts@), i as int + 1);
                }
                return Err(e);
            },
        }
        i = i + 1;
    }
    assert(strings_view(ts@).subrange(0, ts@.len() as int) =~= strings_view(ts@));
    Ok(out)
}

/// Parses an optional query or header constraint.
fn parse_constraint_text(o: Option<String>) -> (r: Result<Option<Vec<QueryPart>>, Error>)
    ensures
        match r {
            Ok(c) => parse_constraint(crate::url::opt_view(o)) == Ok::<
                Option<Seq<QueryPartView>>,
                ErrorView,
            >(constraint_view(c)),
            Err(e) => parse_constraint(crate::url::opt_view(o)) == Err::<
                Option<Seq<QueryPartView>>,
                ErrorView,
            >(e@),
        },
{
    match o {
        None => Ok(None),
        Some(t) => match parse_query_list(&split_pieces(t.as_str(), '&')) {
            Ok(ps) => Ok(Some(ps)),
            Err(e) => Err(e),
        },
    }
}

impl Route {
    /// Parses a route specification `METHOD:uri handler`.
    pub fn from_str(s: &str) -> (r: Result<Route, Error>)
        ensures
            match r {
                Ok(route) => parse_route(s@) == Ok::<RouteView, ErrorView>(route@),
                Err(e) => parse_route(s@) == Err::<RouteView, ErrorView>(e@),
            },
    {
        let (method, rest) = match split_once_at(s, ':') {
            Some(p) => p,
            None => {
                return Err(Error::InvalidRoute("missing method separator (:)".to_owned()));
            },
        };
        let (uri, handler) = match split_once_at(rest.as_str(), ' ') {
            Some(p) => p,
            None => {
                return Err(Error::InvalidRoute("missing handler separator (space)".to_owned()));
            },
        };
        let (path, query, fragment) = parse_url(uri.as_str());
        Route::from_parts(method.as_str(), path.as_str(), query, fragment, handler)
    }

    /// Builds a route from its method token, the path, query and fragment of
    /// its uri, and its handler template.
    pub fn from_parts(
        method: &str,
        path: &str,
        query: Option<String>,
        fragment: Option<String>,
        handler: String,
    ) -> (r: Result<Route, Error>)
        ensures
            match r {
                Ok(route) => route_from_parts(
                    method@,
                    (path@, crate::url::opt_view(query), crate::url::opt_view(fragment)),
                    handler@,
                ) == Ok::<RouteView, ErrorView>(route@),
                Err(e) => route_from_parts(
                    method@,
                    (path@, crate::url::opt_view(query), crate::url::opt_view(fragment)),
                    handler@,
                ) == Err::<RouteView, ErrorView>(e@),
            },
    {
        let query = match parse_constraint_text(query) {
            Ok(q) => q,
            Err(e) => {
                return Err(e);
            },
        };
        let headers = match parse_constraint_text(fragment) {
            Ok(h) => h,
            Err(e) => {
                return Err(e);
            },
        };
        let method = match Method::from_str(method) {
            Ok(m) => m,
            Err(e) => {
                return Err(e);
            },
        };
        let path = match parse_path_list(&segments_of(path, '/')) {
            Ok(p) => p,
            Err(e) => {
                return Err(e);
            },
        };
        Ok(Route { method, path, query, headers, handler })
    }
}

impl std::str::FromStr for Route {
    type Err = Error;

    fn from_str(s: &str) -> Result<Route, Error> {
        Route::from_str(s)
    }
}

} // verus!
