//! HTML element lookup, carried out by the `scraper` crate.
use vstd::prelude::*;

verus! {

/// `scraper::error::SelectorErrorKind`: why a CSS selector failed to parse.
#[verifier::external_type_specification]
#[verifier::external_body]
pub struct ExSelectorErrorKind(scraper::error::SelectorErrorKind);

/// For the document `html` parsed by `scraper::Html::parse_document` and the CSS
/// `selector` parsed by `scraper::Selector::parse`: the elements that
/// `Html::select` yields, in the order it yields them, each given as the values of the
/// attributes `names` (absent where the element lacks one). `None` when the
/// selector does not parse.
pub uninterp spec fn html_select_attrs(html: Seq<char>, selector: Seq<char>, names: Seq<Seq<char>>) -> Option<
    Seq<Seq<Option<Seq<char>>>>,
>;

/// The texts of a list of names.
pub open spec fn texts(names: Seq<&str>) -> Seq<Seq<char>> {
    names.map_values(|n: &str| n@)
}

/// Parses `html` with `scraper::Html::parse_document`, selects the elements that
/// match `selector` with `Html::select`, and reads each one's attributes `names`
/// with `Element::attr`. Trusted: the result is `html_select_attrs` of the
/// arguments.
#[verifier::external_body]
pub(crate) fn select_attrs(html: &str, selector: &str, names: &[&str]) -> (r: Result<
    Vec<Vec<Option<String>>>,
    scraper::error::SelectorErrorKind,
>)
    ensures
        r is Ok <==> html_select_attrs(html@, selector@, texts(names@)) is Some,
        r matches Ok(v) ==> html_select_attrs(html@, selector@, texts(names@)) == Some(v.deep_view()),
{
    let sel = match scraper::Selector::parse(selector) { Ok(s) => s, Err(e) => return Err(e) };
    let doc = scraper::Html::parse_document(html);
    let mut out = Vec::new();
    for el in doc.select(&sel) {
        let mut vals = Vec::new();
        for n in names {
            vals.push(match el.value().attr(n) { Some(v) => Some(v.to_string()), None => None });
        }
        out.push(vals);
    }
    Ok(out)
}

} // verus!
