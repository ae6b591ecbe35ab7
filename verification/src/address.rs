//! Reading the path of a URL.
//!
//! Parsing a URL is the `url` crate's work; the path comes back as plain
//! strings.

use vstd::prelude::*;
use url::Url;

verus! {

/// Strings as characters, one for one.
pub open spec fn texts(strings: Seq<String>) -> Seq<Seq<char>> {
    Seq::new(strings.len(), |i: int| strings[i]@)
}

/// Path segments as characters.
pub open spec fn segment_views(segments: Option<Vec<String>>) -> Option<Seq<Seq<char>>> {
    match segments {
        Some(segments) => Some(texts(segments@)),
        None => None,
    }
}

/// The segments of the path of the URL `url`, percent-encoded as the parsed
/// URL holds them; none where `url` is no absolute URL or has no path of
/// segments.
pub uninterp spec fn path_segments_of(url: Seq<char>) -> Option<Seq<Seq<char>>>;

/// Runs `url`: `Url::parse` on `url`, then `Url::path_segments`. The
/// contract gives the result its name, [`path_segments_of`], and claims
/// nothing else of it; `None` stands for a parse error and for a URL that
/// cannot be a base.
#[verifier::external_body]
pub(crate) fn path_segments(url: &str) -> (segments: Option<Vec<String>>)
    ensures
        segment_views(segments) == path_segments_of(url@),
{
    match Url::parse(url) {
        Ok(url) => url.path_segments().map(|parts| parts.map(|part| part.to_string()).collect()),
        Err(_) => None,
    }
}

} // verus!
