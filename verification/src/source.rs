//! Converting a string into a [`Source`] and rendering one back.
//!
//! The conversion is total: a string that parses as an absolute URL is kept
//! in the URL's canonical rendering, anything else is kept verbatim.  URL
//! parsing itself (the RFC 3986 grammar) is an external collaborator.

use vstd::prelude::*;

use crate::model::Source;
use crate::model::SourceS;

verus! {

/// What attempting to parse a string as an absolute URL yields: `None` if
/// the string is not an absolute URL, else the URL's canonical string
/// rendering.  The full grammar is not restated here; the result is a
/// function of the input string alone.
pub uninterp spec fn url_canon(s: Seq<char>) -> Option<Seq<char>>;

/// Relies on `url::Url::parse`: a deterministic function of the input
/// string alone, returning `Ok` exactly on absolute URLs; and on
/// `String::from(url)`, which hands back the parsed URL's serialization.
/// The serialization of an absolute URL starts with its scheme, so it is
/// never empty.
#[verifier::external_body]
fn parse_url(s: &str) -> (r: Option<String>)
    ensures
        r is Some <==> url_canon(s@) is Some,
        r matches Some(t) ==> url_canon(s@) == Some(t@) && t@.len() > 0,
{
    match url::Url::parse(s) {
        Ok(u) => Some(String::from(u)),
        Err(_) => None,
    }
}

/// The source a string converts to: the canonical rendering of the URL it
/// parses as, or the string itself.
pub open spec fn source_of(s: Seq<char>) -> SourceS {
    match url_canon(s) {
        Some(u) => SourceS::Url(u),
        None => SourceS::Other(s),
    }
}

/// The canonical string rendering of a source.
pub open spec fn render_source(s: SourceS) -> Seq<char> {
    match s {
        SourceS::Url(u) => u,
        SourceS::Other(t) => t,
    }
}

impl Source {
    /// Converts a string into a source.  Total: it never fails, a failed
    /// URL parse downgrades to `Other` with the string preserved.
    pub fn from_str(s: &str) -> (r: Source)
        ensures
            r.deep() == source_of(s@),
    {
        match parse_url(s) {
            Some(u) => Source::Url(u),
            None => Source::Other(s.to_owned()),
        }
    }

    /// The canonical string rendering: the URL's rendering for `Url`, the
    /// raw string for `Other`.
    pub fn to_string(&self) -> (r: String)
        ensures
            r@ == render_source(self.deep()),
    {
        match self {
            Source::Url(u) => u.clone(),
            Source::Other(t) => t.clone(),
        }
    }
}

} // verus!
