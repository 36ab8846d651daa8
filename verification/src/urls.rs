use vstd::prelude::*;

verus! {

/// What `url::Url::parse` gives for `s`: `None` when parsing fails, otherwise
/// the URL's domain (`Url::domain`), host (`Url::host_str`) and path
/// (`Url::path`).
pub uninterp spec fn url_parse(s: Seq<char>) -> Option<(Option<Seq<char>>, Option<Seq<char>>, Seq<char>)>;

/// The parts of a parsed URL that this library reads.
pub struct UrlParts {
    pub domain: Option<String>,
    pub host: Option<String>,
    pub path: String,
}

/// The view of an optional string.
pub open spec fn opt_view(o: Option<String>) -> Option<Seq<char>> {
    match o {
        Some(s) => Some(s@),
        None => None,
    }
}

impl UrlParts {
    pub open spec fn view_parts(&self) -> (Option<Seq<char>>, Option<Seq<char>>, Seq<char>) {
        (opt_view(self.domain), opt_view(self.host), self.path@)
    }
}

/// Calls `url::Url::parse` and reads the domain, host and path of the result;
/// the contract only ties the outcome to the name `url_parse`.
#[verifier::external_body]
pub(crate) fn parse_url(s: &str) -> (r: Option<UrlParts>)
    ensures
        match r {
            Some(p) => url_parse(s@) == Some(p.view_parts()),
            None => url_parse(s@) is None,
        },
{
    match url::Url::parse(s) {
        Ok(u) => Some(UrlParts {
            domain: u.domain().map(|d| d.to_string()),
            host: u.host_str().map(|h| h.to_string()),
            path: u.path().to_string(),
        }),
        Err(_) => None,
    }
}

} // verus!
