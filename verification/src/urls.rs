//! URLs, as far as the rest of the crate looks into them.
use vstd::prelude::*;
use crate::text;

verus! {

/// `url::ParseError`, opaque.
#[verifier::external_type_specification]
#[verifier::external_body]
pub struct ExParseError(url::ParseError);

/// The parts of a URL that decisions are made on.
pub struct UrlParts {
    pub scheme: String,
    pub host: Option<String>,
    pub path: String,
    pub query: Option<String>,
}

/// The texts of [`UrlParts`].
pub struct UrlView {
    pub scheme: Seq<char>,
    pub host: Option<Seq<char>>,
    pub path: Seq<char>,
    pub query: Option<Seq<char>>,
}

impl View for UrlParts {
    type V = UrlView;

    open spec fn view(&self) -> UrlView {
        UrlView {
            scheme: self.scheme@,
            host: text::opt(self.host),
            path: self.path@,
            query: text::opt(self.query),
        }
    }
}

/// What `url::Url::parse` makes of a text: the scheme, host, path and query of
/// the URL, or the error.
pub uninterp spec fn url_parse(input: Seq<char>) -> Result<
    (Seq<char>, Option<Seq<char>>, Seq<char>, Option<Seq<char>>),
    url::ParseError,
>;

/// The parts of the URL that `input` is, where it is one.
pub open spec fn parsed(input: Seq<char>) -> Option<UrlView> {
    match url_parse(input) {
        Ok(p) => Some(UrlView { scheme: p.0, host: p.1, path: p.2, query: p.3 }),
        Err(_) => None,
    }
}

/// `url::Url::parse`, with the `scheme`, `host_str`, `path` and `query` of the
/// URL it gives. Behind a host, the path is empty or begins with a slash.
#[verifier::external_body]
pub(crate) fn parse_url(input: &str) -> (r: Result<UrlParts, url::ParseError>)
    ensures
        match r {
            Ok(p) => url_parse(input@) == Ok::<_, url::ParseError>(
                (p@.scheme, p@.host, p@.path, p@.query),
            ),
            Err(e) => url_parse(input@) == Err::<
                (Seq<char>, Option<Seq<char>>, Seq<char>, Option<Seq<char>>),
                _,
            >(e),
        },
        r matches Ok(p) ==> p@.host is Some ==> p@.path.len() == 0 || p@.path[0] == '/',
{
    let u = url::Url::parse(input)?;
    Ok(
        UrlParts {
            scheme: u.scheme().to_string(),
            host: u.host_str().map(|h| h.to_string()),
            path: u.path().to_string(),
            query: u.query().map(|q| q.to_string()),
        },
    )
}

/// Whether a scheme is one that the shell opens in a window.
pub open spec fn is_web_scheme(scheme: Seq<char>) -> bool {
    scheme == "http"@ || scheme == "https"@
}

/// Whether a scheme is one that the shell opens in a window.
pub fn web_scheme(scheme: &str) -> (r: bool)
    ensures
        r == is_web_scheme(scheme@),
{
    text::same(scheme, "http") || text::same(scheme, "https")
}

/// The parts of a URL are those that were read from it, each in its place.
pub proof fn law_parts_of_a_url(input: Seq<char>)
    ensures
        url_parse(input) is Err <==> parsed(input) is None,
        url_parse(input) matches Ok(p) ==> (parsed(input) matches Some(u) && u.scheme == p.0 && u.host == p.1
            && u.path == p.2 && u.query == p.3),
{
}

} // verus!
