//! The request descriptor that routes are matched against.
use vstd::prelude::*;
use crate::{Error, ErrorView};
use crate::route::{Method, parse_method, msg_no_method_separator};
use crate::text::{join, join_with, split_once, split_once_at, strings_view, text_eq};
use crate::url::{parse_query, parse_url, query_values_of, url_parts_of};

verus! {

/// A request as the router sees it: method, path, and the query and header
/// mappings (each key at most once).
#[derive(Debug, Clone)]
pub struct RouteRequest {
    pub method: Method,
    pub path: String,
    pub query: Vec<(String, String)>,
    pub headers: Vec<(String, String)>,
}

/// A request as text.
pub struct RequestView {
    pub method: Method,
    pub path: Seq<char>,
    pub query: Seq<(Seq<char>, Seq<char>)>,
    pub headers: Seq<(Seq<char>, Seq<char>)>,
}

/// A list of string pairs seen as pairs of character sequences.
pub open spec fn pairs_view(v: Seq<(String, String)>) -> Seq<(Seq<char>, Seq<char>)> {
    v.map_values(|p: (String, String)| (p.0@, p.1@))
}

impl View for RouteRequest {
    type V = RequestView;

    open spec fn view(&self) -> RequestView {
        RequestView {
            method: self.method,
            path: self.path@,
            query: pairs_view(self.query@),
            headers: pairs_view(self.headers@),
        }
    }
}

/// No key occurs twice.
pub open spec fn distinct_keys(ps: Seq<(Seq<char>, Seq<char>)>) -> bool {
    forall|i: int, j: int| 0 <= i < j < ps.len() ==> #[trigger] ps[i].0 != #[trigger] ps[j].0
}

/// `i` is the position of the first entry with key `k`.
pub open spec fn is_key_position(ps: Seq<(Seq<char>, Seq<char>)>, k: Seq<char>, i: int) -> bool {
    &&& 0 <= i < ps.len()
    &&& ps[i].0 == k
    &&& forall|j: int| 0 <= j < i ==> ps[j].0 != k
}

/// The position of the first entry with key `k`, if any.
pub open spec fn key_position(ps: Seq<(Seq<char>, Seq<char>)>, k: Seq<char>) -> Option<int> {
    if exists|i: int| is_key_position(ps, k, i) {
        Some(choose|i: int| is_key_position(ps, k, i))
    } else {
        None
    }
}

/// The pairs with `(k, v)` put in: in place of the entry with key `k`, or at the end.
pub open spec fn insert_pair(ps: Seq<(Seq<char>, Seq<char>)>, k: Seq<char>, v: Seq<char>) -> Seq<(Seq<char>, Seq<char>)> {
    match key_position(ps, k) {
        Some(i) => ps.update(i, (k, v)),
        None => ps.push((k, v)),
    }
}

/// The mapping that a list of pairs describes when later pairs override earlier ones.
pub open spec fn mapping_of(ps: Seq<(Seq<char>, Seq<char>)>) -> Seq<(Seq<char>, Seq<char>)>
    decreases ps.len(),
{
    if ps.len() == 0 {
        ps
    } else {
        insert_pair(mapping_of(ps.drop_last()), ps.last().0, ps.last().1)
    }
}

/// `ps` lists the decoded query `m`, each key once with its values joined by `,`.
pub open spec fn lists_query(ps: Seq<(Seq<char>, Seq<char>)>, m: Map<Seq<char>, Seq<Seq<char>>>) -> bool {
    &&& distinct_keys(ps)
    &&& forall|i: int|
        0 <= i < ps.len() ==> #[trigger] m.contains_key(ps[i].0) && ps[i].1 == join(
            m[ps[i].0],
            seq![','],
        )
    &&& forall|k: Seq<char>| #[trigger]
        m.contains_key(k) ==> exists|i: int| 0 <= i < ps.len() && #[trigger] ps[i].0 == k
}

/// The position of the first entry with key `k`.
pub fn find_key(ps: &Vec<(String, String)>, k: &str) -> (r: Option<usize>)
    ensures
        match r {
            Some(i) => i < ps@.len() && key_position(pairs_view(ps@), k@) == Some(i as int),
            None => key_position(pairs_view(ps@), k@) is None,
        },
{
    let ghost pv = pairs_view(ps@);
    let mut i: usize = 0;
    while i < ps.len()
        invariant
            pv == pairs_view(ps@),
            i <= ps@.len(),
            forall|j: int| 0 <= j < i ==> pv[j].0 != k@,
        decreases ps@.len() - i,
    {
        if text_eq(ps[i].0.as_str(), k) {
            assert(is_key_position(pv, k@, i as int));
            return Some(i);
        }
        i = i + 1;
    }
    None
}

/// The mapping that the pairs describe: a later pair for a key overrides an
/// earlier one, in the earlier one's place.
pub fn mapping_from(pairs: Vec<(String, String)>) -> (r: Vec<(String, String)>)
    ensures
        pairs_view(r@) == mapping_of(pairs_view(pairs@)),
{
    let ghost pv = pairs_view(pairs@);
    let mut out: Vec<(String, String)> = Vec::new();
    let mut i: usize = 0;
    assert(pv.subrange(0, 0) =~= Seq::<(Seq<char>, Seq<char>)>::empty());
    assert(pairs_view(out@) =~= Seq::<(Seq<char>, Seq<char>)>::empty());
    while i < pairs.len()
        invariant
            pv == pairs_view(pairs@),
            i <= pairs@.len(),
            pairs_view(out@) == mapping_of(pv.subrange(0, i as int)),
        decreases pairs@.len() - i,
    {
        assert(pv.subrange(0, i + 1).drop_last() =~= pv.subrange(0, i as int));
        let k = pairs[i].0.clone();
        let v = pairs[i].1.clone();
        match find_key(&out, k.as_str()) {
            Some(j) => {
                let ghost before = out@;
                out.set(j, (k, v));
                assert(pairs_view(out@) =~= pairs_view(before).update(j as int, (k@, v@)));
            },
            None => {
                let ghost before = out@;
                out.push((k, v));
                assert(pairs_view(out@) =~= pairs_view(before).push((k@, v@)));
            },
        }
        i = i + 1;
    }
    assert(pv.subrange(0, pairs@.len() as int) =~= pv);
    out
}

/// The entries with each key's values joined by `,`.
pub fn join_values(parsed: Vec<(String, Vec<String>)>) -> (r: Vec<(String, String)>)
    ensures
        r@.len() == parsed@.len(),
        forall|a: int|
            0 <= a < r@.len() ==> #[trigger] r@[a].0@ == parsed@[a].0@ && r@[a].1@ == join(
                strings_view(parsed@[a].1@),
                seq![','],
            ),
{
    let mut out: Vec<(String, String)> = Vec::new();
    let mut i: usize = 0;
    proof {
        reveal_strlit(",");
        assert(","@ =~= seq![',']);
    }
    while i < parsed.len()
        invariant
            i <= parsed@.len(),
            out@.len() == i,
            forall|a: int|
                0 <= a < i ==> #[trigger] out@[a].0@ == parsed@[a].0@ && out@[a].1@ == join(
                    strings_view(parsed@[a].1@),
                    seq![','],
                ),
            ","@ == seq![','],
        decreases parsed@.len() - i,
    {
        let k = parsed[i].0.clone();
        let v = join_with(&parsed[i].1, ",");
        out.push((k, v));
        i = i + 1;
    }
    out
}

/// The decoded query string with each key's values joined by `,`.
pub fn joined_query(q: &str) -> (r: Vec<(String, String)>)
    ensures
        lists_query(pairs_view(r@), query_values_of(q@)),
{
    let parsed = parse_query(q);
    let ghost m = query_values_of(q@);
    let ghost pv = parsed@;
    let out = join_values(parsed);
    let ghost ov = pairs_view(out@);
    assert forall|k: Seq<char>| #[trigger] m.contains_key(k) implies exists|a: int|
        0 <= a < ov.len() && #[trigger] ov[a].0 == k by {
        let a = choose|a: int| 0 <= a < pv.len() && #[trigger] pv[a].0@ == k;
        assert(ov[a].0 == k);
    }
    assert forall|a: int, b: int| 0 <= a < b < ov.len() implies #[trigger] ov[a].0 != #[trigger] ov[b].0 by {
        assert(pv[a].0@ != pv[b].0@);
    }
    assert forall|a: int| 0 <= a < ov.len() implies #[trigger] m.contains_key(ov[a].0) && ov[a].1 == join(
        m[ov[a].0],
        seq![','],
    ) by {
        assert(out@[a].0@ == pv[a].0@);
    }
    out
}

/// The outcome of parsing a request descriptor `METHOD:uri`: its method, and
/// the uri's path and query.
pub open spec fn parse_request_head(s: Seq<char>) -> Result<(Method, Seq<char>, Option<Seq<char>>), ErrorView> {
    match split_once(s, ':') {
        None => Err(ErrorView::InvalidRoute(msg_no_method_separator())),
        Some((m, uri)) => match parse_method(m) {
            Err(e) => Err(e),
            Ok(method) => Ok((method, url_parts_of(uri).0, url_parts_of(uri).1)),
        },
    }
}

/// `req` is a request with the given method, path and query string, and no headers.
pub open spec fn request_has(req: RequestView, method: Method, path: Seq<char>, query: Option<Seq<char>>) -> bool {
    &&& req.method == method
    &&& req.path == path
    &&& match query {
        Some(q) => lists_query(req.query, query_values_of(q)),
        None => req.query.len() == 0,
    }
    &&& req.headers.len() == 0
}

impl RouteRequest {
    /// Parses a request descriptor `METHOD:uri`, such as `GET:/a/b?x=1`. The
    /// query string is decoded, with the values of a repeated key joined by `,`.
    pub fn from_str(s: &str) -> (r: Result<RouteRequest, Error>)
        ensures
            match r {
                Ok(req) => match parse_request_head(s@) {
                    Ok((m, p, q)) => request_has(req@, m, p, q),
                    Err(_) => false,
                },
                Err(e) => parse_request_head(s@) == Err::<(Method, Seq<char>, Option<Seq<char>>), ErrorView>(e@),
            },
    {
        let (method, uri) = match split_once_at(s, ':') {
            Some(p) => p,
            None => {
                return Err(Error::InvalidRoute("missing method separator (:)".to_owned()));
            },
        };
        let (path, query, _fragment) = parse_url(uri.as_str());
        let query = match query {
            Some(q) => joined_query(q.as_str()),
            None => Vec::new(),
        };
        let method = match Method::from_str(method.as_str()) {
            Ok(m) => m,
            Err(e) => {
                return Err(e);
            },
        };
        Ok(RouteRequest { method, path, query, headers: Vec::new() })
    }

    /// The same request with the given headers, a later pair for a name
    /// overriding an earlier one.
    pub fn with_headers(self, headers: Vec<(String, String)>) -> (r: RouteRequest)
        ensures
            r@.method == self@.method,
            r@.path == self@.path,
            r@.query == self@.query,
            r@.headers == mapping_of(pairs_view(headers@)),
    {
        RouteRequest { headers: mapping_from(headers), ..self }
    }
}

impl std::str::FromStr for RouteRequest {
    type Err = Error;

    fn from_str(s: &str) -> Result<RouteRequest, Error> {
        RouteRequest::from_str(s)
    }
}

} // verus!
