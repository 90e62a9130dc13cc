//! The parts of a URL that the library reads, obtained from the `url` crate.
use vstd::prelude::*;

verus! {

/// The host, path and query of a parsed URL, as texts.
pub struct UrlView {
    pub host: Option<Seq<char>>,
    pub path: Seq<char>,
    pub query: Option<Seq<char>>,
}

/// What the URL parser makes of a text: `None` where it is not an absolute URL.
pub uninterp spec fn parsed_url(text: Seq<char>) -> Option<UrlView>;

/// The view of an optional text.
pub open spec fn opt_text(o: Option<String>) -> Option<Seq<char>> {
    match o {
        Some(s) => Some(s@),
        None => None,
    }
}

/// The host, path and query of a parsed URL.
pub struct UrlParts {
    pub host: Option<String>,
    pub path: String,
    pub query: Option<String>,
}

impl UrlParts {
    pub open spec fn view(&self) -> UrlView {
        UrlView { host: opt_text(self.host), path: self.path@, query: opt_text(self.query) }
    }
}

/// Relies on `url::Url::parse`, read through `Url::host_str`, `Url::path` and
/// `Url::query`: the parts of the parsed URL, or `None` where parsing fails.
#[verifier::external_body]
pub(crate) fn parse_url(text: &str) -> (r: Option<UrlParts>)
    ensures
        r matches Some(p) ==> parsed_url(text@) == Some(p.view()),
        r is None ==> parsed_url(text@) is None,
{
    match url::Url::parse(text) {
        Ok(u) => Some(
            UrlParts {
                host: u.host_str().map(|h| h.to_string()),
                path: u.path().to_string(),
                query: u.query().map(|q| q.to_string()),
            },
        ),
        Err(_) => None,
    }
}

} // verus!
