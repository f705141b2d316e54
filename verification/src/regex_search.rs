//! Regular-expression searches, carried out by the `regex` crate.
use vstd::prelude::*;

verus! {

/// `regex::Error`: why a pattern failed to compile.
#[verifier::external_type_specification]
#[verifier::external_body]
pub struct ExRegexError(regex::Error);

/// Outcome of compiling `pattern` with `regex::Regex::new` and, when that succeeds,
/// of `Regex::is_match` on `haystack`: `None` when the pattern does not compile.
pub uninterp spec fn regex_is_match_result(pattern: Seq<char>, haystack: Seq<char>) -> Option<bool>;

/// Outcome of compiling `pattern` and calling `Regex::captures` on `haystack`:
/// `None` when the pattern does not compile, else the groups of the leftmost-first
/// match (group 0 being the whole match), each the matched text or absent.
pub uninterp spec fn regex_first_captures(pattern: Seq<char>, haystack: Seq<char>) -> Option<
    Option<Seq<Option<Seq<char>>>>,
>;

/// Outcome of compiling `pattern` and walking `Regex::captures_iter` over
/// `haystack`: `None` when the pattern does not compile, else the groups of each
/// successive non-overlapping match, in order.
pub uninterp spec fn regex_all_captures(pattern: Seq<char>, haystack: Seq<char>) -> Option<
    Seq<Seq<Option<Seq<char>>>>,
>;

/// Compiles `pattern` with `regex::Regex::new` and calls `Regex::is_match` on
/// `haystack`. Trusted: the result is `regex_is_match_result` of the two texts;
/// nothing else is claimed about what the regex engine matches.
#[verifier::external_body]
pub(crate) fn regex_is_match(pattern: &str, haystack: &str) -> (r: Result<bool, regex::Error>)
    ensures
        r is Ok <==> regex_is_match_result(pattern@, haystack@) is Some,
        r matches Ok(b) ==> regex_is_match_result(pattern@, haystack@) == Some(b),
{
    match regex::Regex::new(pattern) {
        Ok(re) => Ok(re.is_match(haystack)),
        Err(e) => Err(e),
    }
}

/// Compiles `pattern` and calls `Regex::captures` on `haystack`, handing out each
/// group's text. Trusted: the result is `regex_first_captures` of the two texts.
#[verifier::external_body]
pub(crate) fn regex_captures(pattern: &str, haystack: &str) -> (r: Result<
    Option<Vec<Option<String>>>,
    regex::Error,
>)
    ensures
        r is Ok <==> regex_first_captures(pattern@, haystack@) is Some,
        r matches Ok(c) ==> regex_first_captures(pattern@, haystack@) == Some(c.deep_view()),
{
    let re = match regex::Regex::new(pattern) { Ok(re) => re, Err(e) => return Err(e) };
    match re.captures(haystack) {
        None => Ok(None),
        Some(caps) => {
            let mut groups = Vec::new();
            for m in caps.iter() {
                groups.push(match m { Some(m) => Some(m.as_str().to_string()), None => None });
            }
            Ok(Some(groups))
        },
    }
}

/// Compiles `pattern` and walks `Regex::captures_iter` over `haystack`, handing
/// out each match's group texts. Trusted: the result is `regex_all_captures` of
/// the two texts.
#[verifier::external_body]
pub(crate) fn regex_captures_all(pattern: &str, haystack: &str) -> (r: Result<
    Vec<Vec<Option<String>>>,
    regex::Error,
>)
    ensures
        r is Ok <==> regex_all_captures(pattern@, haystack@) is Some,
        r matches Ok(c) ==> regex_all_captures(pattern@, haystack@) == Some(c.deep_view()),
{
    let re = match regex::Regex::new(pattern) { Ok(re) => re, Err(e) => return Err(e) };
    let mut all = Vec::new();
    for caps in re.captures_iter(haystack) {
        let mut groups = Vec::new();
        for m in caps.iter() {
            groups.push(match m { Some(m) => Some(m.as_str().to_string()), None => None });
        }
        all.push(groups);
    }
    Ok(all)
}

} // verus!
