//! URL parsing and resolution, carried out by the `url` crate.
use vstd::prelude::*;

verus! {

/// `url::ParseError`: why a text is not a valid (absolute or relative) URL.
#[verifier::external_type_specification]
#[verifier::external_body]
pub struct ExUrlParseError(url::ParseError);

/// A parsed URL, as its serialization and its host.
#[derive(Debug)]
pub struct ParsedUrl {
    /// The URL's serialization (`Url::as_str`, also its `Display` text).
    pub text: String,
    /// `Url::host_str`: the host, absent for URLs without one.
    pub host: Option<String>,
}

/// Serialization and host of `url::Url::parse(input)`; `None` when it fails.
pub uninterp spec fn url_parse_result(input: Seq<char>) -> Option<(Seq<char>, Option<Seq<char>>)>;

/// Serialization and host of `Url::parse(base)` followed by `Url::join(input)`;
/// `None` when either fails.
pub uninterp spec fn url_join_result(base: Seq<char>, input: Seq<char>) -> Option<
    (Seq<char>, Option<Seq<char>>),
>;

/// Parses `input` with `url::Url::parse`. Trusted: the result is
/// `url_parse_result(input)`.
#[verifier::external_body]
pub(crate) fn url_parse(input: &str) -> (r: Result<ParsedUrl, url::ParseError>)
    ensures
        r is Ok <==> url_parse_result(input@) is Some,
        r matches Ok(u) ==> url_parse_result(input@) == Some((u.text@, u.host.deep_view())),
{
    match url::Url::parse(input) {
        Ok(u) => Ok(ParsedUrl { text: u.to_string(), host: match u.host_str() { Some(h) => Some(h.to_string()), None => None } }),
        Err(e) => Err(e),
    }
}

/// Parses `base` with `url::Url::parse` and resolves `input` against it with
/// `Url::join`. Trusted: the result is `url_join_result(base, input)`.
#[verifier::external_body]
pub(crate) fn url_join(base: &str, input: &str) -> (r: Result<ParsedUrl, url::ParseError>)
    ensures
        r is Ok <==> url_join_result(base@, input@) is Some,
        r matches Ok(u) ==> url_join_result(base@, input@) == Some((u.text@, u.host.deep_view())),
{
    let b = match url::Url::parse(base) { Ok(b) => b, Err(e) => return Err(e) };
    match b.join(input) {
        Ok(u) => Ok(ParsedUrl { text: u.to_string(), host: match u.host_str() { Some(h) => Some(h.to_string()), None => None } }),
        Err(e) => Err(e),
    }
}

} // verus!
