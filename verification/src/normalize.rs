//! The link normalizer: parses the query text into a URL (defaulting the
//! scheme to `https` when none of the `http` family is given), runs the
//! segment scanner over the URL's path, and either rewrites the URL around
//! the canonical path — dropping query and fragment — or returns the URL
//! exactly as parsed.

use vstd::prelude::*;

use crate::cleaner::{
    canonical_around, cleaned_segments, first_marker_index, has_marker, is_first_marker,
    join_path, join_segments, lemma_cleaned_at, lemma_first_marker_exists, Cleaner,
};
use crate::url_api::{
    parse_ok, parsed_segments, parsed_str, url_as_string, url_clear_fragment, url_clear_query,
    url_parse, url_path_segments, url_segs, url_set_path, url_str, with_path_str,
    without_fragment_str, without_query_str,
};

verus! {

/// A cleaning outcome: either the canonically cleaned value, or the
/// original value untouched because no product path was found.
#[derive(Clone, Debug, PartialEq, Eq)]
pub enum Clean<T> {
    Cleaned(T),
    Original(T),
}

/// Why a query could not be turned into a URL at all.
#[derive(Debug)]
pub enum LinkError {
    /// The (scheme-defaulted) text is not a well-formed absolute URL.
    Parse(url::ParseError),
    /// The URL parsed, but is of a kind that has no path segments.
    CannotBeBase,
}

/// The text that is actually handed to the URL parser: the query itself
/// when it already starts with `http`, otherwise the query behind an
/// `https://` scheme.
pub open spec fn scheme_defaulted(s: Seq<char>) -> Seq<char> {
    if s.len() >= 4 && s.subrange(0, 4) == "http"@ {
        s
    } else {
        "https://"@ + s
    }
}

/// The serialization of the cleaned URL: the one parsed from `s`, its path
/// rewritten to the joined cleaned segments, its query and fragment cleared.
pub open spec fn cleaned_url_str(s: Seq<char>) -> Seq<char> {
    without_fragment_str(without_query_str(with_path_str(
        parsed_str(s),
        join_segments(cleaned_segments(parsed_segments(s)->Some_0)),
    )))
}

/// Everything `clean_link` promises of its result, for the query `s`.
pub open spec fn clean_link_post(s: Seq<char>, r: Result<Clean<String>, LinkError>) -> bool {
    let t = scheme_defaulted(s);
    &&& (r is Ok) == (parse_ok(t) && parsed_segments(t) is Some)
    &&& (r matches Err(e) ==> (e is Parse <==> !parse_ok(t)))
    &&& (r matches Err(e) ==> (e is CannotBeBase <==> parse_ok(t) && parsed_segments(t) is None))
    &&& (parse_ok(t) ==> (parsed_segments(t) matches Some(segs) ==> if has_marker(segs) {
        r matches Ok(c) && c matches Clean::Cleaned(out) && out@ == cleaned_url_str(t)
    } else {
        r matches Ok(c) && c matches Clean::Original(out) && out@ == parsed_str(t)
    }))
}

/// Whether the text begins with the four characters `http`.
fn starts_with_http(s: &str) -> (b: bool)
    ensures
        b == (s@.len() >= 4 && s@.subrange(0, 4) == "http"@),
{
    proof {
        reveal_strlit("http");
    }
    let n = s.unicode_len();
    if n < 4 {
        return false;
    }
    let b = s.get_char(0) == 'h' && s.get_char(1) == 't' && s.get_char(2) == 't' && s.get_char(3)
        == 'p';
    proof {
        if b {
            assert(s@.subrange(0, 4) =~= "http"@);
        } else {
            assert(s@.subrange(0, 4) != "http"@) by {
                if s@.subrange(0, 4) == "http"@ {
                    assert(s@[0] == "http"@[0]);
                    assert(s@[1] == "http"@[1]);
                    assert(s@[2] == "http"@[2]);
                    assert(s@[3] == "http"@[3]);
                }
            }
        }
    }
    b
}

/// Parse the query text into a URL, prepending `https://` when the text
/// does not begin with `http`. A text that still fails to parse is a
/// terminal error for the request.
pub fn parse_url(url: &str) -> (r: Result<url::Url, LinkError>)
    ensures
        (r is Ok) == parse_ok(scheme_defaulted(url@)),
        r matches Ok(u) ==> url_str(u) == parsed_str(scheme_defaulted(url@)),
        r matches Ok(u) ==> url_segs(u) == parsed_segments(scheme_defaulted(url@)),
        r matches Err(e) ==> e is Parse,
{
    if starts_with_http(url) {
        match url_parse(url) {
            Ok(u) => Ok(u),
            Err(e) => Err(LinkError::Parse(e)),
        }
    } else {
        let t = String::from_str("https://").concat(url);
        assert(t@ == scheme_defaulted(url@));
        match url_parse(t.as_str()) {
            Ok(u) => Ok(u),
            Err(e) => Err(LinkError::Parse(e)),
        }
    }
}

/// Scan the URL's path for the marker. On success, rewrite the path to the
/// canonical cleaned segments and clear the query and the fragment; on
/// failure, hand the URL back exactly as it came in. A URL without path
/// segments is rejected.
pub fn clean_url(url: url::Url) -> (r: Result<Clean<url::Url>, LinkError>)
    ensures
        (r is Err) == (url_segs(url) is None),
        r matches Err(e) ==> e is CannotBeBase,
        url_segs(url) matches Some(segs) ==> if has_marker(segs) {
            r matches Ok(c) && c matches Clean::Cleaned(u2) && url_str(u2) == without_fragment_str(
                without_query_str(
                    with_path_str(url_str(url), join_segments(cleaned_segments(segs))),
                ),
            )
        } else {
            r matches Ok(c) && c matches Clean::Original(u2) && u2 == url
        },
{
    let ghost url0 = url;
    let segs = match url_path_segments(&url) {
        Some(v) => v,
        None => {
            return Err(LinkError::CannotBeBase);
        },
    };
    let mut cleaner = Cleaner::new(segs);
    let new_path = cleaner.collect_all();
    if cleaner.is_done() {
        let joined = join_path(&new_path);
        proof {
            let gsegs = url_segs(url0)->Some_0;
            assert(has_marker(gsegs));
            lemma_first_marker_exists(gsegs);
            let i = first_marker_index(gsegs);
            assert(is_first_marker(gsegs, i));
            lemma_cleaned_at(gsegs, i);
            let a = if i > 0 {
                i - 1
            } else {
                i
            };
            let b = if i + 1 < gsegs.len() {
                i + 2
            } else {
                i + 1
            };
            assert(canonical_around(gsegs, i) =~= gsegs.subrange(a, b));
            assert(joined@ == join_segments(gsegs.subrange(a, b)));
            assert(0 <= a <= b <= gsegs.len());
        }
        let mut cleaned = url;
        url_set_path(&mut cleaned, joined.as_str());
        url_clear_query(&mut cleaned);
        url_clear_fragment(&mut cleaned);
        Ok(Clean::Cleaned(cleaned))
    } else {
        Ok(Clean::Original(url))
    }
}

/// Clean one query text: parse it (scheme-defaulted), scan its path, and
/// return the cleaned or the original URL's serialization.
pub fn clean_link(url: &str) -> (r: Result<Clean<String>, LinkError>)
    ensures
        clean_link_post(url@, r),
{
    let parsed = match parse_url(url) {
        Ok(u) => u,
        Err(e) => {
            return Err(e);
        },
    };
    match clean_url(parsed) {
        Ok(Clean::Cleaned(u)) => Ok(Clean::Cleaned(url_as_string(&u))),
        Ok(Clean::Original(u)) => Ok(Clean::Original(url_as_string(&u))),
        Err(e) => Err(e),
    }
}

} // verus!
