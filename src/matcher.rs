//! Matching a request against a route: the path terms against the request's
//! path segments, and the query and header terms against its mappings.
use vstd::prelude::*;
use crate::request::{find_key, key_position, pairs_view, RequestView, RouteRequest};
use crate::route::{
    constraint_view, path_parts_view, query_parts_view, PartView, PathPart, PathPartView,
    QueryPart, QueryPartView, Route, RoutePart, RouteView,
};
use crate::text::{join, join_from, join_with, segments, segments_of, strings_view, text_eq};

verus! {

/// A name bound to the text it matched.
pub type Binding = (Seq<char>, Seq<char>);

/// Bindings as the matcher hands them out: a reference to the route's name, and the value.
pub open spec fn bindings_view(v: Seq<(&String, String)>) -> Seq<Binding> {
    v.map_values(|b: (&String, String)| (b.0@, b.1@))
}

/// Bindings of a match, if there is one, as text.
pub open spec fn opt_bindings_view(o: Option<Vec<(&String, String)>>) -> Option<Seq<Binding>> {
    match o {
        Some(v) => Some(bindings_view(v@)),
        None => None,
    }
}

/// `acc` followed by the bindings of a successful match; no match stays no match.
pub open spec fn prepend_all(acc: Seq<Binding>, r: Option<Seq<Binding>>) -> Option<Seq<Binding>> {
    match r {
        Some(bs) => Some(acc + bs),
        None => None,
    }
}

/// Path terms against path segments, left to right. A literal consumes an equal
/// segment; a name consumes a segment and binds it; an optional name binds the
/// next segment, or the empty text when none is left; a catch-all binds all the
/// remaining segments joined by `/` and ends the walk. Every segment must be consumed.
pub open spec fn match_path(parts: Seq<PathPartView>, segs: Seq<Seq<char>>) -> Option<Seq<Binding>>
    decreases parts.len(),
{
    if parts.len() == 0 {
        if segs.len() == 0 {
            Some(Seq::empty())
        } else {
            None
        }
    } else {
        let rest = parts.drop_first();
        match parts[0] {
            PathPartView::Entry(PartView::Literal(v)) => if segs.len() > 0 && segs[0] == v {
                match_path(rest, segs.drop_first())
            } else {
                None
            },
            PathPartView::Entry(PartView::Named(n)) => if segs.len() > 0 {
                prepend_all(seq![(n, segs[0])], match_path(rest, segs.drop_first()))
            } else {
                None
            },
            PathPartView::Entry(PartView::NamedOptional(n)) => if segs.len() > 0 {
                prepend_all(seq![(n, segs[0])], match_path(rest, segs.drop_first()))
            } else {
                prepend_all(seq![(n, Seq::empty())], match_path(rest, segs))
            },
            PathPartView::CatchAll(n) => Some(seq![(n, join(segs, seq!['/']))]),
        }
    }
}

/// The entries written `k=v` and joined by `&`.
pub open spec fn encode_entries(hay: Seq<(Seq<char>, Seq<char>)>) -> Seq<char> {
    join(hay.map_values(|e: (Seq<char>, Seq<char>)| e.0 + seq!['='] + e.1), seq!['&'])
}

/// Query or header terms against a mapping, left to right. A keyed term takes
/// its key's entry out of the mapping: a literal must equal the value, a name
/// binds it, and an optional name binds the empty text when the key is absent.
/// A catch-all binds all entries not yet taken, encoded as `k=v` joined by `&`,
/// and takes them. No entry may be left over.
pub open spec fn match_query(parts: Seq<QueryPartView>, hay: Seq<(Seq<char>, Seq<char>)>) -> Option<Seq<Binding>>
    decreases parts.len(),
{
    if parts.len() == 0 {
        if hay.len() == 0 {
            Some(Seq::empty())
        } else {
            None
        }
    } else {
        let rest = parts.drop_first();
        match parts[0] {
            QueryPartView::KeyValue(k, p) => match key_position(hay, k) {
                Some(i) => {
                    let v = hay[i].1;
                    let left = hay.remove(i);
                    match p {
                        PartView::Literal(l) => if l == v {
                            match_query(rest, left)
                        } else {
                            None
                        },
                        PartView::Named(n) => prepend_all(seq![(n, v)], match_query(rest, left)),
                        PartView::NamedOptional(n) => prepend_all(seq![(n, v)], match_query(rest, left)),
                    }
                },
                None => match p {
                    PartView::NamedOptional(n) => prepend_all(
                        seq![(n, Seq::empty())],
                        match_query(rest, hay),
                    ),
                    _ => None,
                },
            },
            QueryPartView::CatchAll(n) => prepend_all(
                seq![(n, encode_entries(hay))],
                match_query(rest, Seq::empty()),
            ),
        }
    }
}

/// An absent constraint matches anything and binds nothing.
pub open spec fn match_constraint(c: Option<Seq<QueryPartView>>, hay: Seq<(Seq<char>, Seq<char>)>) -> Option<Seq<Binding>> {
    match c {
        None => Some(Seq::empty()),
        Some(ps) => match_query(ps, hay),
    }
}

/// A route against a request: the methods must be equal, then the path, the
/// query and the headers must match; the bindings come in that order.
pub open spec fn match_route(r: RouteView, req: RequestView) -> Option<Seq<Binding>> {
    if r.method != req.method {
        None
    } else {
        match (
            match_path(r.path, segments(req.path, '/')),
            match_constraint(r.query, req.query),
            match_constraint(r.headers, req.headers),
        ) {
            (Some(p), Some(q), Some(h)) => Some(p + q + h),
            _ => None,
        }
    }
}

/// Path terms against path segments.
pub fn match_path_parts<'a>(parts: &'a Vec<PathPart>, segs: &Vec<String>) -> (r: Option<Vec<(&'a String, String)>>)
    ensures
        opt_bindings_view(r) == match_path(path_parts_view(parts@), strings_view(segs@)),
{
    let ghost pv = path_parts_view(parts@);
    let ghost sv = strings_view(segs@);
    let mut out: Vec<(&'a String, String)> = Vec::new();
    let mut i: usize = 0;
    let mut j: usize = 0;
    assert(pv.subrange(0, pv.len() as int) =~= pv);
    assert(sv.subrange(0, sv.len() as int) =~= sv);
    assert(bindings_view(out@) + match_path(pv, sv)->0 =~= match_path(pv, sv)->0);
    while i < parts.len()
        invariant
            pv == path_parts_view(parts@),
            sv == strings_view(segs@),
            i <= parts@.len(),
            j <= segs@.len(),
            match_path(pv, sv) == prepend_all(
                bindings_view(out@),
                match_path(pv.subrange(i as int, pv.len() as int), sv.subrange(j as int, sv.len() as int)),
            ),
        decreases parts@.len() - i,
    {
        let ghost rest_p = pv.subrange(i as int, pv.len() as int);
        let ghost rest_s = sv.subrange(j as int, sv.len() as int);
        assert(rest_p.drop_first() =~= pv.subrange(i + 1, pv.len() as int));
        assert(rest_p[0] == parts@[i as int]@);
        let ghost before = out@;
        match &parts[i] {
            PathPart::Entry(RoutePart::Literal(v)) => {
                if j < segs.len() && text_eq(v.as_str(), segs[j].as_str()) {
                    assert(rest_s.drop_first() =~= sv.subrange(j + 1, sv.len() as int));
                    j = j + 1;
                } else {
                    return None;
                }
            },
            PathPart::Entry(RoutePart::Named(n)) => {
                if j < segs.len() {
                    assert(rest_s.drop_first() =~= sv.subrange(j + 1, sv.len() as int));
                    out.push((n, segs[j].clone()));
                    assert(bindings_view(out@) =~= bindings_view(before) + seq![(n@, sv[j as int])]);
                    j = j + 1;
                } else {
                    return None;
                }
            },
            PathPart::Entry(RoutePart::NamedOptional(n)) => {
                if j < segs.len() {
                    assert(rest_s.drop_first() =~= sv.subrange(j + 1, sv.len() as int));
                    out.push((n, segs[j].clone()));
                    assert(bindings_view(out@) =~= bindings_view(before) + seq![(n@, sv[j as int])]);
                    j = j + 1;
                } else {
                    out.push((n, String::new()));
                    assert(bindings_view(out@) =~= bindings_view(before) + seq![(n@, Seq::<char>::empty())]);
                }
            },
            PathPart::CatchAll(n) => {
                proof {
                    reveal_strlit("/");
                    assert("/"@ =~= seq!['/']);
                }
                let rest = join_from(segs, j, "/");
                out.push((n, rest));
                assert(bindings_view(out@) =~= bindings_view(before) + seq![(n@, rest@)]);
                return Some(out);
            },
        }
        i = i + 1;
    }
    if j == segs.len() {
        assert(bindings_view(out@) + Seq::<Binding>::empty() =~= bindings_view(out@));
        Some(out)
    } else {
        None
    }
}

/// A copy of the pairs.
fn copy_pairs(ps: &Vec<(String, String)>) -> (r: Vec<(String, String)>)
    ensures
        pairs_view(r@) == pairs_view(ps@),
{
    let mut out: Vec<(String, String)> = Vec::new();
    let mut i: usize = 0;
    while i < ps.len()
        invariant
            i <= ps@.len(),
            pairs_view(out@) == pairs_view(ps@).subrange(0, i as int),
        decreases ps@.len() - i,
    {
        let a = ps[i].0.clone();
        let b = ps[i].1.clone();
        assert((a@, b@) == pairs_view(ps@)[i as int]);
        let ghost before = out@;
        out.push((a, b));
        assert(pairs_view(out@) =~= pairs_view(before).push((a@, b@)));
        assert(pairs_view(ps@).subrange(0, i + 1) =~= pairs_view(ps@).subrange(0, i as int).push(
            pairs_view(ps@)[i as int],
        ));
        i = i + 1;
    }
    assert(pairs_view(ps@).subrange(0, ps@.len() as int) =~= pairs_view(ps@));
    out
}

/// The entries written `k=v` and joined by `&`.
pub fn encode_pairs(ps: &Vec<(String, String)>) -> (r: String)
    ensures
        r@ == encode_entries(pairs_view(ps@)),
{
    let ghost pv = pairs_view(ps@);
    let mut items: Vec<String> = Vec::new();
    let mut i: usize = 0;
    proof {
        reveal_strlit("=");
        reveal_strlit("&");
        assert("="@ =~= seq!['=']);
        assert("&"@ =~= seq!['&']);
    }
    while i < ps.len()
        invariant
            pv == pairs_view(ps@),
            i <= ps@.len(),
            "="@ == seq!['='],
            strings_view(items@) == pv.subrange(0, i as int).map_values(
                |e: (Seq<char>, Seq<char>)| e.0 + seq!['='] + e.1,
            ),
        decreases ps@.len() - i,
    {
        let mut item = ps[i].0.clone();
        item.append("=");
        item.append(ps[i].1.as_str());
        assert(item@ == pv[i as int].0 + seq!['='] + pv[i as int].1);
        let ghost before = items@;
        let ghost entry = item@;
        items.push(item);
        assert(strings_view(items@) =~= strings_view(before).push(entry));
        assert(pv.subrange(0, i + 1).map_values(|e: (Seq<char>, Seq<char>)| e.0 + seq!['='] + e.1)
            =~= pv.subrange(0, i as int).map_values(
            |e: (Seq<char>, Seq<char>)| e.0 + seq!['='] + e.1,
        ).push(entry));
        i = i + 1;
    }
    assert(pv.subrange(0, ps@.len() as int) =~= pv);
    join_with(&items, "&")
}

/// Query or header terms against a mapping.
pub fn match_query_parts<'a>(parts: &'a Vec<QueryPart>, hay: &Vec<(String, String)>) -> (r: Option<Vec<(&'a String, String)>>)
    ensures
        opt_bindings_view(r) == match_query(query_parts_view(parts@), pairs_view(hay@)),
{
    let ghost pv = query_parts_view(parts@);
    let mut left = copy_pairs(hay);
    let mut out: Vec<(&'a String, String)> = Vec::new();
    let mut i: usize = 0;
    assert(pv.subrange(0, pv.len() as int) =~= pv);
    assert(bindings_view(out@) + match_query(pv, pairs_view(hay@))->0 =~= match_query(pv, pairs_view(hay@))->0);
    while i < parts.len()
        invariant
            pv == query_parts_view(parts@),
            i <= parts@.len(),
            match_query(pv, pairs_view(hay@)) == prepend_all(
                bindings_view(out@),
                match_query(pv.subrange(i as int, pv.len() as int), pairs_view(left@)),
            ),
        decreases parts@.len() - i,
    {
        let ghost rest_p = pv.subrange(i as int, pv.len() as int);
        let ghost lv = pairs_view(left@);
        assert(rest_p.drop_first() =~= pv.subrange(i + 1, pv.len() as int));
        assert(rest_p[0] == parts@[i as int]@);
        let ghost before = out@;
        match &parts[i] {
            QueryPart::KeyValue(k, p) => {
                match find_key(&left, k.as_str()) {
                    Some(idx) => {
                        let (_key, v) = left.remove(idx);
                        assert(pairs_view(left@) =~= lv.remove(idx as int));
                        match p {
                            RoutePart::Literal(l) => {
                                if !text_eq(l.as_str(), v.as_str()) {
                                    return None;
                                }
                            },
                            RoutePart::Named(n) => {
                                out.push((n, v));
                                assert(bindings_view(out@) =~= bindings_view(before) + seq![(n@, lv[idx as int].1)]);
                            },
                            RoutePart::NamedOptional(n) => {
                                out.push((n, v));
                                assert(bindings_view(out@) =~= bindings_view(before) + seq![(n@, lv[idx as int].1)]);
                            },
                        }
                    },
                    None => {
                        match p {
                            RoutePart::NamedOptional(n) => {
                                out.push((n, String::new()));
                                assert(bindings_view(out@) =~= bindings_view(before) + seq![(n@, Seq::<char>::empty())]);
                            },
                            _ => {
                                return None;
                            },
                        }
                    },
                }
            },
            QueryPart::CatchAll(n) => {
                let rest = encode_pairs(&left);
                left = Vec::new();
                out.push((n, rest));
                assert(bindings_view(out@) =~= bindings_view(before) + seq![(n@, rest@)]);
                assert(pairs_view(left@) =~= Seq::<(Seq<char>, Seq<char>)>::empty());
            },
        }
        i = i + 1;
    }
    if left.len() == 0 {
        assert(pairs_view(left@) =~= Seq::<(Seq<char>, Seq<char>)>::empty());
        assert(bindings_view(out@) + Seq::<Binding>::empty() =~= bindings_view(out@));
        Some(out)
    } else {
        None
    }
}

impl Route {
    /// Matches a request: on success, the bindings of the path's, the query's
    /// and the headers' names, in that order.
    pub fn matches(&self, req: &RouteRequest) -> (r: Option<Vec<(&String, String)>>)
        ensures
            opt_bindings_view(r) == match_route(self@, req@),
    {
        if self.method != req.method {
            return None;
        }
        let segs = segments_of(req.path.as_str(), '/');
        let mut params = match match_path_parts(&self.path, &segs) {
            Some(p) => p,
            None => {
                return None;
            },
        };
        let ghost p_view = bindings_view(params@);
        let mut q_params = match &self.query {
            Some(q) => match match_query_parts(q, &req.query) {
                Some(m) => m,
                None => {
                    return None;
                },
            },
            None => Vec::new(),
        };
        let ghost q_view = bindings_view(q_params@);
        assert(q_view == match_constraint(constraint_view(self.query), req@.query)->0);
        let mut h_params = match &self.headers {
            Some(h) => match match_query_parts(h, &req.headers) {
                Some(m) => m,
                None => {
                    return None;
                },
            },
            None => Vec::new(),
        };
        let ghost h_view = bindings_view(h_params@);
        assert(h_view == match_constraint(constraint_view(self.headers), req@.headers)->0);
        let ghost pq = params@ + q_params@;
        params.append(&mut q_params);
        params.append(&mut h_params);
        assert(bindings_view(params@) =~= p_view + q_view + h_view);
        Some(params)
    }
}

} // verus!
