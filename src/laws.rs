//! Properties of matching that hold for every route and request.
use vstd::prelude::*;
use crate::matcher::{match_constraint, match_path, match_query, match_route, Binding};
use crate::request::{distinct_keys, is_key_position, key_position, RequestView};
use crate::route::{PartView, PathPartView, QueryPartView, RouteView};
use crate::text::{join, segments};

verus! {

/// A route without a query constraint gives a request the same answer whatever
/// the request's query.
pub proof fn law_query_ignored_without_constraint(
    r: RouteView,
    req: RequestView,
    query: Seq<(Seq<char>, Seq<char>)>,
)
    requires
        r.query is None,
    ensures
        match_route(r, req) == match_route(r, RequestView { query, ..req }),
{
}

/// A route without a header constraint gives a request the same answer
/// whatever the request's headers.
pub proof fn law_headers_ignored_without_constraint(
    r: RouteView,
    req: RequestView,
    headers: Seq<(Seq<char>, Seq<char>)>,
)
    requires
        r.headers is None,
    ensures
        match_route(r, req) == match_route(r, RequestView { headers, ..req }),
{
}

/// The smaller of two integers.
pub open spec fn min_int(a: int, b: int) -> int {
    if a <= b {
        a
    } else {
        b
    }
}

/// The binding that a catch-all path term at position `k`, after `k` single
/// terms, makes of the segments: those from the `k`-th on, joined by `/`.
pub open spec fn catch_all_binding(n: Seq<char>, segs: Seq<Seq<char>>, k: int) -> Binding {
    (n, join(segs.subrange(min_int(k, segs.len() as int), segs.len() as int), seq!['/']))
}

proof fn lemma_catch_all_path(parts: Seq<PathPartView>, segs: Seq<Seq<char>>, k: int, n: Seq<char>)
    requires
        0 <= k < parts.len(),
        parts[k] == PathPartView::CatchAll(n),
        forall|j: int| 0 <= j < k ==> #[trigger] parts[j] is Entry,
        match_path(parts, segs) is Some,
    ensures
        match_path(parts, segs)->0.len() > 0,
        match_path(parts, segs)->0.last() == catch_all_binding(n, segs, k),
    decreases k,
{
    if k > 0 {
        let rest = parts.drop_first();
        assert(rest[k - 1] == parts[k]);
        assert forall|j: int| 0 <= j < k - 1 implies #[trigger] rest[j] is Entry by {
            assert(parts[j + 1] is Entry);
        }
        assert(parts[0] is Entry);
        if segs.len() > 0 {
            let tail = segs.drop_first();
            assert(tail.subrange(min_int(k - 1, tail.len() as int), tail.len() as int) =~= segs.subrange(
                min_int(k, segs.len() as int),
                segs.len() as int,
            ));
            match parts[0] {
                PathPartView::Entry(PartView::Literal(v)) => {
                    lemma_catch_all_path(rest, tail, k - 1, n);
                },
                _ => {
                    lemma_catch_all_path(rest, tail, k - 1, n);
                },
            }
        } else {
            lemma_catch_all_path(rest, segs, k - 1, n);
        }
    } else {
        assert(segs.subrange(0, segs.len() as int) =~= segs);
    }
}

/// A route whose path holds a catch-all `n` binds `n`, as the last of its path
/// bindings, to the request's path segments left after the terms before it,
/// joined by `/`; to the empty text when none are left.
pub proof fn law_catch_all_binds_remaining_segments(r: RouteView, req: RequestView, k: int, n: Seq<char>)
    requires
        0 <= k < r.path.len(),
        r.path[k] == PathPartView::CatchAll(n),
        forall|j: int| 0 <= j < k ==> #[trigger] r.path[j] is Entry,
        match_route(r, req) is Some,
    ensures
        ({
            let segs = segments(req.path, '/');
            let p = match_path(r.path, segs);
            &&& p is Some
            &&& p->0.len() > 0
            &&& p->0.last() == catch_all_binding(n, segs, k)
            &&& match_route(r, req)->0.subrange(0, p->0.len() as int) == p->0
        }),
{
    let segs = segments(req.path, '/');
    lemma_catch_all_path(r.path, segs, k, n);
    let p = match_path(r.path, segs)->0;
    let q = match_constraint(r.query, req.query)->0;
    let h = match_constraint(r.headers, req.headers)->0;
    assert((p + q + h).subrange(0, p.len() as int) =~= p);
}

/// The names a path binds, in declaration order: those of its named terms,
/// up to and including the first catch-all.
pub open spec fn path_names(parts: Seq<PathPartView>) -> Seq<Seq<char>>
    decreases parts.len(),
{
    if parts.len() == 0 {
        Seq::empty()
    } else {
        let rest = path_names(parts.drop_first());
        match parts[0] {
            PathPartView::Entry(PartView::Literal(_)) => rest,
            PathPartView::Entry(PartView::Named(n)) => seq![n] + rest,
            PathPartView::Entry(PartView::NamedOptional(n)) => seq![n] + rest,
            PathPartView::CatchAll(n) => seq![n],
        }
    }
}

/// The names a query or header constraint binds, in declaration order.
pub open spec fn query_names(parts: Seq<QueryPartView>) -> Seq<Seq<char>>
    decreases parts.len(),
{
    if parts.len() == 0 {
        Seq::empty()
    } else {
        let rest = query_names(parts.drop_first());
        match parts[0] {
            QueryPartView::KeyValue(_, PartView::Literal(_)) => rest,
            QueryPartView::KeyValue(_, PartView::Named(n)) => seq![n] + rest,
            QueryPartView::KeyValue(_, PartView::NamedOptional(n)) => seq![n] + rest,
            QueryPartView::CatchAll(n) => seq![n] + rest,
        }
    }
}

/// The names an optional constraint binds.
pub open spec fn constraint_names(c: Option<Seq<QueryPartView>>) -> Seq<Seq<char>> {
    match c {
        Some(ps) => query_names(ps),
        None => Seq::empty(),
    }
}

/// The names a route binds, in declaration order: path, query, headers.
pub open spec fn route_names(r: RouteView) -> Seq<Seq<char>> {
    path_names(r.path) + constraint_names(r.query) + constraint_names(r.headers)
}

/// The names of the bindings, in order.
pub open spec fn binding_names(bs: Seq<Binding>) -> Seq<Seq<char>> {
    bs.map_values(|b: Binding| b.0)
}

proof fn lemma_prepend_names(b: Binding, bs: Seq<Binding>)
    ensures
        binding_names(seq![b] + bs) == seq![b.0] + binding_names(bs),
{
    assert(binding_names(seq![b] + bs) =~= seq![b.0] + binding_names(bs));
}

proof fn lemma_path_names(parts: Seq<PathPartView>, segs: Seq<Seq<char>>)
    requires
        match_path(parts, segs) is Some,
    ensures
        binding_names(match_path(parts, segs)->0) == path_names(parts),
    decreases parts.len(),
{
    if parts.len() == 0 {
        assert(binding_names(Seq::<Binding>::empty()) =~= Seq::<Seq<char>>::empty());
    } else {
        let rest = parts.drop_first();
        match parts[0] {
            PathPartView::Entry(PartView::Literal(v)) => {
                lemma_path_names(rest, segs.drop_first());
            },
            PathPartView::Entry(PartView::Named(n)) => {
                lemma_path_names(rest, segs.drop_first());
                lemma_prepend_names((n, segs[0]), match_path(rest, segs.drop_first())->0);
            },
            PathPartView::Entry(PartView::NamedOptional(n)) => {
                if segs.len() > 0 {
                    lemma_path_names(rest, segs.drop_first());
                    lemma_prepend_names((n, segs[0]), match_path(rest, segs.drop_first())->0);
                } else {
                    lemma_path_names(rest, segs);
                    lemma_prepend_names((n, Seq::empty()), match_path(rest, segs)->0);
                }
            },
            PathPartView::CatchAll(n) => {
                let b = (n, join(segs, seq!['/']));
                assert(binding_names(seq![b]) =~= seq![n]);
            },
        }
    }
}

proof fn lemma_query_names(parts: Seq<QueryPartView>, hay: Seq<(Seq<char>, Seq<char>)>)
    requires
        match_query(parts, hay) is Some,
    ensures
        binding_names(match_query(parts, hay)->0) == query_names(parts),
    decreases parts.len(),
{
    if parts.len() == 0 {
        assert(binding_names(Seq::<Binding>::empty()) =~= Seq::<Seq<char>>::empty());
    } else {
        let rest = parts.drop_first();
        match parts[0] {
            QueryPartView::KeyValue(k, p) => match key_position(hay, k) {
                Some(i) => {
                    lemma_query_names(rest, hay.remove(i));
                    match p {
                        PartView::Literal(_) => {},
                        PartView::Named(n) => {
                            lemma_prepend_names((n, hay[i].1), match_query(rest, hay.remove(i))->0);
                        },
                        PartView::NamedOptional(n) => {
                            lemma_prepend_names((n, hay[i].1), match_query(rest, hay.remove(i))->0);
                        },
                    }
                },
                None => {
                    lemma_query_names(rest, hay);
                    match p {
                        PartView::NamedOptional(n) => {
                            lemma_prepend_names((n, Seq::empty()), match_query(rest, hay)->0);
                        },
                        _ => {},
                    }
                },
            },
            QueryPartView::CatchAll(n) => {
                lemma_query_names(rest, Seq::empty());
                lemma_prepend_names(
                    (n, crate::matcher::encode_entries(hay)),
                    match_query(rest, Seq::empty())->0,
                );
            },
        }
    }
}

/// Whenever a route matches, its bindings carry the route's names in
/// declaration order: path, then query, then headers.
pub proof fn law_binding_names_in_declaration_order(r: RouteView, req: RequestView)
    requires
        match_route(r, req) is Some,
    ensures
        binding_names(match_route(r, req)->0) == route_names(r),
{
    let segs = segments(req.path, '/');
    lemma_path_names(r.path, segs);
    let p = match_path(r.path, segs)->0;
    let q = match_constraint(r.query, req.query)->0;
    let h = match_constraint(r.headers, req.headers)->0;
    match r.query {
        Some(qs) => lemma_query_names(qs, req.query),
        None => {
            assert(binding_names(q) =~= Seq::<Seq<char>>::empty());
        },
    }
    match r.headers {
        Some(hs) => lemma_query_names(hs, req.headers),
        None => {
            assert(binding_names(h) =~= Seq::<Seq<char>>::empty());
        },
    }
    assert(binding_names(p + q + h) =~= binding_names(p) + binding_names(q) + binding_names(h));
}

/// The path segments a request needs to satisfy each path term exactly: a
/// literal's text, the value chosen for a name, and for a catch-all the
/// segments `rest` chosen for it.
pub open spec fn path_witness(parts: Seq<PathPartView>, vals: Seq<Seq<char>>, rest: Seq<Seq<char>>) -> Seq<Seq<char>>
    decreases parts.len(),
{
    if parts.len() == 0 {
        Seq::empty()
    } else {
        let tail = path_witness(parts.drop_first(), vals.drop_first(), rest);
        match parts[0] {
            PathPartView::Entry(PartView::Literal(v)) => seq![v] + tail,
            PathPartView::Entry(_) => seq![vals[0]] + tail,
            PathPartView::CatchAll(_) => rest,
        }
    }
}

/// The bindings of the path's names to the values chosen for them.
pub open spec fn path_expected(parts: Seq<PathPartView>, vals: Seq<Seq<char>>, rest: Seq<Seq<char>>) -> Seq<Binding>
    decreases parts.len(),
{
    if parts.len() == 0 {
        Seq::empty()
    } else {
        let tail = path_expected(parts.drop_first(), vals.drop_first(), rest);
        match parts[0] {
            PathPartView::Entry(PartView::Literal(_)) => tail,
            PathPartView::Entry(PartView::Named(n)) => seq![(n, vals[0])] + tail,
            PathPartView::Entry(PartView::NamedOptional(n)) => seq![(n, vals[0])] + tail,
            PathPartView::CatchAll(n) => seq![(n, join(rest, seq!['/']))],
        }
    }
}

/// The entries a request needs to satisfy each query or header term exactly:
/// a key with a literal's text or with the value chosen for a name, and for a
/// catch-all the entries `extra` chosen for it.
pub open spec fn query_witness(
    parts: Seq<QueryPartView>,
    vals: Seq<Seq<char>>,
    extra: Seq<(Seq<char>, Seq<char>)>,
) -> Seq<(Seq<char>, Seq<char>)>
    decreases parts.len(),
{
    if parts.len() == 0 {
        Seq::empty()
    } else {
        let tail = query_witness(parts.drop_first(), vals.drop_first(), extra);
        match parts[0] {
            QueryPartView::KeyValue(k, PartView::Literal(v)) => seq![(k, v)] + tail,
            QueryPartView::KeyValue(k, _) => seq![(k, vals[0])] + tail,
            QueryPartView::CatchAll(_) => extra + tail,
        }
    }
}

/// The bindings of a constraint's names to the values chosen for them.
pub open spec fn query_expected(
    parts: Seq<QueryPartView>,
    vals: Seq<Seq<char>>,
    extra: Seq<(Seq<char>, Seq<char>)>,
) -> Seq<Binding>
    decreases parts.len(),
{
    if parts.len() == 0 {
        Seq::empty()
    } else {
        let tail = query_expected(parts.drop_first(), vals.drop_first(), extra);
        match parts[0] {
            QueryPartView::KeyValue(_, PartView::Literal(_)) => tail,
            QueryPartView::KeyValue(_, PartView::Named(n)) => seq![(n, vals[0])] + tail,
            QueryPartView::KeyValue(_, PartView::NamedOptional(n)) => seq![(n, vals[0])] + tail,
            QueryPartView::CatchAll(n) => seq![(n, crate::matcher::encode_entries(extra))] + tail,
        }
    }
}

/// The expected bindings of an optional constraint.
pub open spec fn constraint_expected(
    c: Option<Seq<QueryPartView>>,
    vals: Seq<Seq<char>>,
    extra: Seq<(Seq<char>, Seq<char>)>,
) -> Seq<Binding> {
    match c {
        Some(ps) => query_expected(ps, vals, extra),
        None => Seq::empty(),
    }
}

/// A catch-all, if the terms have one, is the last of them: one before keyed
/// terms would take the entries they need.
pub open spec fn catch_all_last(ps: Seq<QueryPartView>) -> bool {
    forall|i: int| 0 <= i < ps.len() && #[trigger] ps[i] is CatchAll ==> i == ps.len() - 1
}

/// The request's entries satisfy a constraint's terms exactly, with the chosen
/// values and extra entries.
pub open spec fn satisfies_constraint(
    c: Option<Seq<QueryPartView>>,
    hay: Seq<(Seq<char>, Seq<char>)>,
    vals: Seq<Seq<char>>,
    extra: Seq<(Seq<char>, Seq<char>)>,
) -> bool {
    match c {
        Some(ps) => {
            &&& catch_all_last(ps)
            &&& vals.len() == ps.len()
            &&& hay == query_witness(ps, vals, extra)
        },
        None => true,
    }
}

proof fn lemma_path_witness(parts: Seq<PathPartView>, vals: Seq<Seq<char>>, rest: Seq<Seq<char>>)
    requires
        vals.len() == parts.len(),
    ensures
        match_path(parts, path_witness(parts, vals, rest)) == Some(path_expected(parts, vals, rest)),
    decreases parts.len(),
{
    let w = path_witness(parts, vals, rest);
    if parts.len() > 0 {
        let tail = parts.drop_first();
        lemma_path_witness(tail, vals.drop_first(), rest);
        match parts[0] {
            PathPartView::CatchAll(n) => {},
            _ => {
                assert(w.drop_first() =~= path_witness(tail, vals.drop_first(), rest));
            },
        }
    }
}

proof fn lemma_query_witness(
    parts: Seq<QueryPartView>,
    vals: Seq<Seq<char>>,
    extra: Seq<(Seq<char>, Seq<char>)>,
)
    requires
        vals.len() == parts.len(),
        catch_all_last(parts),
    ensures
        match_query(parts, query_witness(parts, vals, extra)) == Some(query_expected(parts, vals, extra)),
    decreases parts.len(),
{
    let w = query_witness(parts, vals, extra);
    if parts.len() > 0 {
        let tail = parts.drop_first();
        assert forall|i: int| 0 <= i < tail.len() && #[trigger] tail[i] is CatchAll implies i == tail.len() - 1 by {
            assert(parts[i + 1] is CatchAll);
        }
        lemma_query_witness(tail, vals.drop_first(), extra);
        match parts[0] {
            QueryPartView::KeyValue(k, _) => {
                assert(w.remove(0) =~= query_witness(tail, vals.drop_first(), extra));
                assert(is_key_position(w, k, 0));
                assert(key_position(w, k) == Some(0int));
            },
            QueryPartView::CatchAll(n) => {
                assert(tail.len() == 0);
                assert(w =~= extra);
            },
        }
    }
}

/// A request whose path segments, query entries and header entries satisfy
/// each term of a route exactly, with values chosen for its names and for its
/// catch-alls, matches the route, and the bindings are the route's names in
/// declaration order with those values. A query or header catch-all must be
/// the last of its terms; a path catch-all ends the path.
pub proof fn law_satisfying_request_matches(
    r: RouteView,
    req: RequestView,
    path_vals: Seq<Seq<char>>,
    rest_segments: Seq<Seq<char>>,
    query_vals: Seq<Seq<char>>,
    query_extra: Seq<(Seq<char>, Seq<char>)>,
    header_vals: Seq<Seq<char>>,
    header_extra: Seq<(Seq<char>, Seq<char>)>,
)
    requires
        req.method == r.method,
        path_vals.len() == r.path.len(),
        segments(req.path, '/') == path_witness(r.path, path_vals, rest_segments),
        satisfies_constraint(r.query, req.query, query_vals, query_extra),
        satisfies_constraint(r.headers, req.headers, header_vals, header_extra),
    ensures
        match_route(r, req) == Some(
            path_expected(r.path, path_vals, rest_segments) + constraint_expected(
                r.query,
                query_vals,
                query_extra,
            ) + constraint_expected(r.headers, header_vals, header_extra),
        ),
        binding_names(match_route(r, req)->0) == route_names(r),
{
    lemma_path_witness(r.path, path_vals, rest_segments);
    match r.query {
        Some(qs) => lemma_query_witness(qs, query_vals, query_extra),
        None => {},
    }
    match r.headers {
        Some(hs) => lemma_query_witness(hs, header_vals, header_extra),
        None => {},
    }
    law_binding_names_in_declaration_order(r, req);
}

/// Every path term is a literal.
pub open spec fn literal_path(parts: Seq<PathPartView>) -> bool {
    forall|i: int| 0 <= i < parts.len() ==> #[trigger] parts[i] matches PathPartView::Entry(
        PartView::Literal(_),
    )
}

/// The texts of a path's literal terms.
pub open spec fn path_literals(parts: Seq<PathPartView>) -> Seq<Seq<char>> {
    Seq::new(
        parts.len(),
        |i: int|
            match parts[i] {
                PathPartView::Entry(PartView::Literal(v)) => v,
                _ => Seq::empty(),
            },
    )
}

/// Every query or header term is a key with a literal value.
pub open spec fn literal_query(parts: Seq<QueryPartView>) -> bool {
    forall|i: int| 0 <= i < parts.len() ==> #[trigger] parts[i] matches QueryPartView::KeyValue(
        _,
        PartView::Literal(_),
    )
}

/// The key and value pairs of literal query or header terms.
pub open spec fn query_literals(parts: Seq<QueryPartView>) -> Seq<(Seq<char>, Seq<char>)> {
    Seq::new(
        parts.len(),
        |i: int|
            match parts[i] {
                QueryPartView::KeyValue(k, PartView::Literal(v)) => (k, v),
                _ => (Seq::empty(), Seq::empty()),
            },
    )
}

/// A literal constraint is well formed: no key twice.
pub open spec fn literal_constraint(c: Option<Seq<QueryPartView>>) -> bool {
    match c {
        Some(ps) => literal_query(ps) && distinct_keys(query_literals(ps)),
        None => true,
    }
}

/// The request's entries, as a set, are those the constraint names; an absent
/// constraint accepts any entries.
pub open spec fn same_entries(c: Option<Seq<QueryPartView>>, hay: Seq<(Seq<char>, Seq<char>)>) -> bool {
    match c {
        Some(ps) => query_literals(ps).to_set() == hay.to_set(),
        None => true,
    }
}

proof fn lemma_literal_path(parts: Seq<PathPartView>, segs: Seq<Seq<char>>)
    requires
        literal_path(parts),
    ensures
        match_path(parts, segs) == if segs == path_literals(parts) {
            Some(Seq::<Binding>::empty())
        } else {
            None
        },
    decreases parts.len(),
{
    let lits = path_literals(parts);
    if parts.len() == 0 {
        assert(lits =~= Seq::<Seq<char>>::empty());
        if segs.len() == 0 {
            assert(segs =~= lits);
        }
    } else {
        let rest = parts.drop_first();
        assert forall|i: int| 0 <= i < rest.len() implies #[trigger] rest[i] matches PathPartView::Entry(
            PartView::Literal(_),
        ) by {
            assert(parts[i + 1] matches PathPartView::Entry(PartView::Literal(_)));
        }
        assert(parts[0] matches PathPartView::Entry(PartView::Literal(_)));
        assert(lits.drop_first() =~= path_literals(rest));
        if segs.len() > 0 {
            lemma_literal_path(rest, segs.drop_first());
            if segs == lits {
                assert(segs.drop_first() == path_literals(rest));
            }
            if segs[0] == lits[0] && segs.drop_first() == path_literals(rest) {
                assert(segs.len() == lits.len());
                assert forall|i: int| 0 <= i < segs.len() implies segs[i] == lits[i] by {
                    if i > 0 {
                        assert(segs.drop_first()[i - 1] == lits.drop_first()[i - 1]);
                    }
                }
                assert(segs =~= lits);
            }
        }
    }
}

proof fn lemma_to_set_prepend(x: (Seq<char>, Seq<char>), s: Seq<(Seq<char>, Seq<char>)>)
    ensures
        (seq![x] + s).to_set() == s.to_set().insert(x),
{
    let t = seq![x] + s;
    assert forall|e: (Seq<char>, Seq<char>)| t.to_set().contains(e) <==> s.to_set().insert(x).contains(e) by {
        if t.contains(e) {
            let i = choose|i: int| 0 <= i < t.len() && t[i] == e;
            if i > 0 {
                assert(s[i - 1] == e);
            }
        }
        if s.contains(e) {
            let i = choose|i: int| 0 <= i < s.len() && s[i] == e;
            assert(t[i + 1] == e);
        }
        if e == x {
            assert(t[0] == e);
        }
    }
    assert(t.to_set() =~= s.to_set().insert(x));
}

proof fn lemma_to_set_remove(s: Seq<(Seq<char>, Seq<char>)>, i: int)
    requires
        0 <= i < s.len(),
    ensures
        s.to_set() == s.remove(i).to_set().insert(s[i]),
{
    let t = s.remove(i);
    assert forall|e: (Seq<char>, Seq<char>)| s.to_set().contains(e) <==> t.to_set().insert(s[i]).contains(e) by {
        if s.contains(e) {
            let j = choose|j: int| 0 <= j < s.len() && s[j] == e;
            if j < i {
                assert(t[j] == e);
            } else if j > i {
                assert(t[j - 1] == e);
            }
        }
        if t.contains(e) {
            let j = choose|j: int| 0 <= j < t.len() && t[j] == e;
            if j < i {
                assert(s[j] == e);
            } else {
                assert(s[j + 1] == e);
            }
        }
    }
    assert(s.to_set() =~= t.to_set().insert(s[i]));
}

proof fn lemma_literal_query(parts: Seq<QueryPartView>, hay: Seq<(Seq<char>, Seq<char>)>)
    requires
        literal_query(parts),
        distinct_keys(query_literals(parts)),
        distinct_keys(hay),
    ensures
        match_query(parts, hay) == if query_literals(parts).to_set() == hay.to_set() {
            Some(Seq::<Binding>::empty())
        } else {
            None
        },
    decreases parts.len(),
{
    let lits = query_literals(parts);
    if parts.len() == 0 {
        assert(lits =~= Seq::<(Seq<char>, Seq<char>)>::empty());
        if hay.len() > 0 {
            assert(hay.to_set().contains(hay[0]));
            assert(!lits.to_set().contains(hay[0]));
        } else {
            assert(hay.to_set() =~= lits.to_set());
        }
    } else {
        let rest = parts.drop_first();
        let rl = query_literals(rest);
        assert forall|i: int| 0 <= i < rest.len() implies #[trigger] rest[i] matches QueryPartView::KeyValue(
            _,
            PartView::Literal(_),
        ) by {
            assert(parts[i + 1] matches QueryPartView::KeyValue(_, PartView::Literal(_)));
        }
        assert(parts[0] matches QueryPartView::KeyValue(_, PartView::Literal(_)));
        let x = lits[0];
        let (k, v) = x;
        assert(lits =~= seq![x] + rl);
        assert forall|a: int, b: int| 0 <= a < b < rl.len() implies #[trigger] rl[a].0 != #[trigger] rl[b].0 by {
            assert(lits[a + 1].0 != lits[b + 1].0);
        }
        lemma_to_set_prepend(x, rl);
        assert(!rl.to_set().contains(x)) by {
            if rl.contains(x) {
                let j = choose|j: int| 0 <= j < rl.len() && rl[j] == x;
                assert(lits[0].0 != lits[j + 1].0);
            }
        }
        assert(lits.to_set().contains(x));
        match key_position(hay, k) {
            Some(i) => {
                let left = hay.remove(i);
                assert(is_key_position(hay, k, i));
                assert forall|a: int, b: int| 0 <= a < b < left.len() implies #[trigger] left[a].0
                    != #[trigger] left[b].0 by {
                    let a2 = if a < i { a } else { a + 1 };
                    let b2 = if b < i { b } else { b + 1 };
                    assert(left[a] == hay[a2]);
                    assert(left[b] == hay[b2]);
                }
                lemma_to_set_remove(hay, i);
                assert(!left.to_set().contains(hay[i])) by {
                    if left.contains(hay[i]) {
                        let j = choose|j: int| 0 <= j < left.len() && left[j] == hay[i];
                        let j2 = if j < i { j } else { j + 1 };
                        assert(hay[j2] == left[j]);
                    }
                }
                if hay[i].1 == v {
                    assert(hay[i] == x);
                    lemma_literal_query(rest, left);
                    if rl.to_set() == left.to_set() {
                        assert(lits.to_set() == hay.to_set());
                    }
                    if lits.to_set() == hay.to_set() {
                        assert forall|e: (Seq<char>, Seq<char>)| rl.to_set().contains(e) <==> left.to_set().contains(e) by {
                            assert(lits.to_set().contains(e) <==> hay.to_set().contains(e));
                        }
                        assert(rl.to_set() =~= left.to_set());
                    }
                } else {
                    assert(!hay.to_set().contains(x)) by {
                        if hay.contains(x) {
                            let j = choose|j: int| 0 <= j < hay.len() && hay[j] == x;
                            if j != i {
                                if j < i {
                                    assert(hay[j].0 != hay[i].0);
                                } else {
                                    assert(hay[i].0 != hay[j].0);
                                }
                            }
                        }
                    }
                }
            },
            None => {
                assert(!hay.to_set().contains(x)) by {
                    if hay.contains(x) {
                        let j = choose|j: int| 0 <= j < hay.len() && hay[j] == x;
                        lemma_first_key_exists(hay, k, j);
                    }
                }
            },
        }
    }
}

/// When some entry has key `k`, there is a first such entry.
proof fn lemma_first_key_exists(hay: Seq<(Seq<char>, Seq<char>)>, k: Seq<char>, j: int)
    requires
        0 <= j < hay.len(),
        hay[j].0 == k,
    ensures
        key_position(hay, k) is Some,
    decreases j,
{
    if exists|m: int| 0 <= m < j && hay[m].0 == k {
        let m = choose|m: int| 0 <= m < j && hay[m].0 == k;
        lemma_first_key_exists(hay, k, m);
    } else {
        assert(is_key_position(hay, k, j));
    }
}

proof fn lemma_literal_constraint(c: Option<Seq<QueryPartView>>, hay: Seq<(Seq<char>, Seq<char>)>)
    requires
        literal_constraint(c),
        distinct_keys(hay),
    ensures
        match_constraint(c, hay) == if same_entries(c, hay) {
            Some(Seq::<Binding>::empty())
        } else {
            None
        },
{
    match c {
        Some(ps) => lemma_literal_query(ps, hay),
        None => {},
    }
}

/// A route made of literals only matches a request exactly when the methods
/// are equal, the request's path segments are the route's literals, and, for
/// each constraint the route has, the request's entries form the same set of
/// key and value pairs; it then binds nothing. (The request's mappings and the
/// route's constraints hold each key once.)
pub proof fn law_literal_route_is_equality(r: RouteView, req: RequestView)
    requires
        literal_path(r.path),
        literal_constraint(r.query),
        literal_constraint(r.headers),
        distinct_keys(req.query),
        distinct_keys(req.headers),
    ensures
        (match_route(r, req) is Some) <==> ({
            &&& r.method == req.method
            &&& segments(req.path, '/') == path_literals(r.path)
            &&& same_entries(r.query, req.query)
            &&& same_entries(r.headers, req.headers)
        }),
        match_route(r, req) is Some ==> match_route(r, req)->0.len() == 0,
{
    lemma_literal_path(r.path, segments(req.path, '/'));
    lemma_literal_constraint(r.query, req.query);
    lemma_literal_constraint(r.headers, req.headers);
    if match_route(r, req) is Some {
        assert(match_route(r, req)->0 =~= Seq::<Binding>::empty());
    }
}

} // verus!
