//! URL query strings, read and rewritten through the `url` crate.

use vstd::prelude::*;

verus! {

pub open spec fn pairs_view(v: Seq<(String, String)>) -> Seq<(Seq<char>, Seq<char>)> {
    v.map_values(|p: (String, String)| (p.0@, p.1@))
}

/// The decoded name/value pairs of a URL's query, in order; `None` where
/// the text is no URL.
pub uninterp spec fn query_pairs_of(url: Seq<char>) -> Option<Seq<(Seq<char>, Seq<char>)>>;

/// The text of a URL whose query is replaced by the serialized `pairs`.
pub uninterp spec fn with_query_of(url: Seq<char>, pairs: Seq<(Seq<char>, Seq<char>)>) -> Seq<
    char,
>;

/// The text of a URL with the serialized `pairs` appended to its query.
pub uninterp spec fn appended_of(url: Seq<char>, pairs: Seq<(Seq<char>, Seq<char>)>) -> Seq<char>;

/// Relies on `url::Url::parse` and `Url::query_pairs`: the query parsed as
/// `application/x-www-form-urlencoded`.
#[verifier::external_body]
pub(crate) fn query_pairs(url: &str) -> (r: Option<Vec<(String, String)>>)
    ensures
        match r {
            Some(v) => query_pairs_of(url@) == Some(pairs_view(v@)),
            None => query_pairs_of(url@) == Option::<Seq<(Seq<char>, Seq<char>)>>::None,
        },
{
    let u = url::Url::parse(url).ok()?;
    Some(u.query_pairs().map(|(k, v)| (k.into_owned(), v.into_owned())).collect())
}

/// Relies on `url::Url::parse` and `Url::query_pairs_mut` (`clear`, then
/// `extend_pairs`): the same URL with its query replaced.
#[verifier::external_body]
pub(crate) fn with_query(url: &str, pairs: &Vec<(String, String)>) -> (r: Option<String>)
    ensures
        match r {
            Some(t) => query_pairs_of(url@) is Some && t@ == with_query_of(url@, pairs_view(pairs@)),
            None => query_pairs_of(url@) is None,
        },
{
    let mut u = url::Url::parse(url).ok()?;
    u.query_pairs_mut().clear().extend_pairs(pairs.iter());
    Some(u.to_string())
}

/// Relies on `url::Url::parse` and `Url::query_pairs_mut` (`extend_pairs`
/// without `clear`):
/// the serialized pairs follow the existing query, so the query reads back
/// as the old pairs and then the new ones, and everything outside the
/// query is kept.
#[verifier::external_body]
pub(crate) fn append_pairs(url: &str, pairs: &Vec<(String, String)>) -> (r: Option<String>)
    ensures
        match r {
            Some(t) => {
                &&& query_pairs_of(url@) is Some
                &&& t@ == appended_of(url@, pairs_view(pairs@))
                &&& query_pairs_of(t@) == Some(query_pairs_of(url@)->Some_0 + pairs_view(pairs@))
                &&& forall|q: Seq<(Seq<char>, Seq<char>)>| #[trigger]
                    with_query_of(t@, q) == with_query_of(url@, q)
            },
            None => query_pairs_of(url@) is None,
        },
{
    let mut u = url::Url::parse(url).ok()?;
    u.query_pairs_mut().extend_pairs(pairs.iter());
    Some(u.to_string())
}

} // verus!
