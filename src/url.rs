//! URL and query-string decomposition, done by the `urlparse` crate.
use vstd::prelude::*;
use crate::text::strings_view;

verus! {

/// The view of an optional string.
pub open spec fn opt_view(o: Option<String>) -> Option<Seq<char>> {
    match o {
        Some(s) => Some(s@),
        None => None,
    }
}

/// The path, query and fragment that `urlparse::urlparse` finds in a text.
pub uninterp spec fn url_parts_of(s: Seq<char>) -> (Seq<char>, Option<Seq<char>>, Option<Seq<char>>);

/// The keys of a query string with the values given for each, as `urlparse::parse_qs` decodes them.
pub uninterp spec fn query_values_of(s: Seq<char>) -> Map<Seq<char>, Seq<Seq<char>>>;

/// Relies on `urlparse::urlparse`: it splits a text into URL components, and
/// this keeps the path, the query and the fragment (each absent when empty).
#[verifier::external_body]
pub(crate) fn parse_url(s: &str) -> (r: (String, Option<String>, Option<String>))
    ensures
        url_parts_of(s@) == (r.0@, opt_view(r.1), opt_view(r.2)),
{
    let u = urlparse::urlparse(s);
    (u.path, u.query, u.fragment)
}

/// Relies on `urlparse::parse_qs`: it decodes a query string into a map from each
/// key to the list of its values. The map's entries come out in no fixed order,
/// each key once.
#[verifier::external_body]
pub(crate) fn parse_query(s: &str) -> (r: Vec<(String, Vec<String>)>)
    ensures
        forall|i: int, j: int|
            0 <= i < j < r@.len() ==> #[trigger] r@[i].0@ != #[trigger] r@[j].0@,
        forall|i: int|
            0 <= i < r@.len() ==> #[trigger] query_values_of(s@).contains_key(r@[i].0@)
                && query_values_of(s@)[r@[i].0@] == strings_view(r@[i].1@),
        forall|k: Seq<char>|
            #[trigger] query_values_of(s@).contains_key(k) ==> exists|i: int|
                0 <= i < r@.len() && #[trigger] r@[i].0@ == k,
{
    urlparse::parse_qs(s).into_iter().collect()
}

} // verus!
