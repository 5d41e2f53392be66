//! Absolute web addresses.

use vstd::prelude::*;

verus! {

/// The serialization of the URL that the WHATWG URL parser makes of `s`, or
/// `None` where `s` is not an absolute URL.
pub uninterp spec fn url_parse_of(s: Seq<char>) -> Option<Seq<char>>;

/// Relies on `url::Url::parse` (the type `reqwest::Url` re-exports) and on the
/// serialization it keeps: the result depends on `s` alone.
#[verifier::external_body]
pub(crate) fn parse_url(s: &str) -> (r: Option<String>)
    ensures
        match r {
            Some(u) => url_parse_of(s@) == Some(u@),
            None => url_parse_of(s@) is None,
        },
{
    match url::Url::parse(s) {
        Ok(u) => Some(String::from(u)),
        Err(_) => None,
    }
}

/// The view of a parse result.
pub open spec fn parsed_view(r: Option<String>) -> Option<Seq<char>> {
    match r {
        Some(u) => Some(u@),
        None => None,
    }
}

/// Parses `s` as an absolute URL and gives its normalized form.
pub fn normalize_url(s: &str) -> (r: Option<String>)
    ensures
        parsed_view(r) == url_parse_of(s@),
{
    parse_url(s)
}

} // verus!
