//! Normalizes product URLs: scans the path of a URL for the fixed marker
//! segment and, when it is found, reduces the path to the minimal canonical
//! form around it (at most one predecessor segment, the marker, at most one
//! trailing identifier segment), dropping the query and the fragment.
//! When the marker is absent the URL is kept exactly as parsed.

pub mod cleaner;
pub mod normalize;
pub mod url_api;
