//! The boundary to the `url` crate. The library leans on it for generic URL
//! parsing and serialization (percent-encoding, host handling, component
//! rewriting); everything it computes is deterministic in its arguments, so
//! each result is given a name here and the wrappers state how the calls
//! relate those names. A `url::Url` value is canonical: it is exactly its
//! serialization string together with indices derived from it, so every
//! method's outcome is a function of that string.

use vstd::prelude::*;

use crate::cleaner::join_segments;

verus! {

#[verifier::external_type_specification]
#[verifier::external_body]
pub struct ExUrl(url::Url);

#[verifier::external_type_specification]
#[verifier::external_body]
pub struct ExParseError(url::ParseError);

/// Whether `url::Url::parse` accepts the text as an absolute URL.
pub uninterp spec fn parse_ok(s: Seq<char>) -> bool;

/// The serialization of the URL that `url::Url::parse` produces from the
/// text (meaningful only when `parse_ok` holds of it).
pub uninterp spec fn parsed_str(s: Seq<char>) -> Seq<char>;

/// The path segments of the URL that `url::Url::parse` produces from the
/// text; `None` when that URL is cannot-be-a-base and has no segments.
pub uninterp spec fn parsed_segments(s: Seq<char>) -> Option<Seq<Seq<char>>>;

/// The serialization a `url::Url` value holds, as `url::Url::as_str`
/// returns it.
pub uninterp spec fn url_str(u: url::Url) -> Seq<char>;

/// The path segments a `url::Url` value holds, as `url::Url::path_segments`
/// yields them; `None` exactly for cannot-be-a-base URLs.
pub uninterp spec fn url_segs(u: url::Url) -> Option<Seq<Seq<char>>>;

/// The serialization after `url::Url::set_path` rewrites the path of a URL
/// whose serialization was `base`.
pub uninterp spec fn with_path_str(base: Seq<char>, path: Seq<char>) -> Seq<char>;

/// The serialization after `url::Url::set_query` clears the query of a URL
/// whose serialization was `base`.
pub uninterp spec fn without_query_str(base: Seq<char>) -> Seq<char>;

/// The serialization after `url::Url::set_fragment` clears the fragment of
/// a URL whose serialization was `base`.
pub uninterp spec fn without_fragment_str(base: Seq<char>) -> Seq<char>;

/// Relies on url::Url::parse: a deterministic parse of the text, `Ok`
/// exactly when it is a well-formed absolute URL.
#[verifier::external_body]
pub(crate) fn url_parse(s: &str) -> (r: Result<url::Url, url::ParseError>)
    ensures
        (r is Ok) == parse_ok(s@),
        r matches Ok(u) ==> url_str(u) == parsed_str(s@),
        r matches Ok(u) ==> url_segs(u) == parsed_segments(s@),
{
    url::Url::parse(s)
}

/// Relies on url::Url::path_segments: the '/'-separated segments of the
/// path, in order, or `None` for a cannot-be-a-base URL.
#[verifier::external_body]
pub(crate) fn url_path_segments(u: &url::Url) -> (r: Option<Vec<String>>)
    ensures
        match r {
            Some(v) => url_segs(*u) == Some(v@.map_values(|s: String| s@)),
            None => url_segs(*u) is None,
        },
{
    u.path_segments().map(|it| it.map(|s| s.to_string()).collect())
}

/// Relies on url::Url::as_str: returns the URL's serialization.
#[verifier::external_body]
pub(crate) fn url_as_string(u: &url::Url) -> (r: String)
    ensures
        r@ == url_str(*u),
{
    String::from(u.as_str())
}

/// Relies on url::Url::set_path: rewrites the path component in place; the
/// new serialization depends only on the old one and the path text.
/// `set_path` panics when the rebuilt serialization outgrows the crate's
/// `u32` index range, so the caller must hand it the `/`-join of a
/// contiguous run of the URL's own path segments: such a path is already
/// percent-encoded, and the rebuilt serialization is then no longer than
/// the old one, which the crate keeps within that range.
#[verifier::external_body]
pub(crate) fn url_set_path(u: &mut url::Url, path: &str)
    requires
        url_segs(*old(u)) matches Some(osegs) && exists|a: int, b: int|
            0 <= a <= b <= osegs.len() && path@ == join_segments(osegs.subrange(a, b)),
    ensures
        url_str(*final(u)) == with_path_str(url_str(*old(u)), path@),
{
    u.set_path(path)
}

/// Relies on url::Url::set_query with `None`: clears the query component;
/// the new serialization depends only on the old one.
#[verifier::external_body]
pub(crate) fn url_clear_query(u: &mut url::Url)
    ensures
        url_str(*final(u)) == without_query_str(url_str(*old(u))),
{
    u.set_query(None)
}

/// Relies on url::Url::set_fragment with `None`: clears the fragment
/// component; the new serialization depends only on the old one.
#[verifier::external_body]
pub(crate) fn url_clear_fragment(u: &mut url::Url)
    ensures
        url_str(*final(u)) == without_fragment_str(url_str(*old(u))),
{
    u.set_fragment(None)
}

} // verus!
