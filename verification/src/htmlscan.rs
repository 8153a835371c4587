use vstd::prelude::*;

verus! {

/// The values of attribute `attr` on the elements of `html` matching the
/// CSS selector `selector`, in document order, as scraper's parser reads
/// the document; empty when the selector does not parse.
pub uninterp spec fn attr_values_of(html: Seq<char>, selector: Seq<char>, attr: Seq<char>) -> Seq<
    Seq<char>,
>;

/// Relies on `scraper::Html::parse_document`, `scraper::Selector::parse`,
/// `scraper::Html::select` and `scraper::node::Element::attr`: parsing is
/// deterministic, so the attribute values found depend on the three
/// strings alone.
#[verifier::external_body]
pub(crate) fn html_attr_values(html: &str, selector: &str, attr: &str) -> (r: Vec<String>)
    ensures
        r.deep_view() == attr_values_of(html@, selector@, attr@),
{
    let sel = match scraper::Selector::parse(selector) {
        Ok(s) => s,
        Err(_) => return Vec::new(),
    };
    let doc = scraper::Html::parse_document(html);
    let mut out = Vec::new();
    for el in doc.select(&sel) {
        if let Some(v) = el.value().attr(attr) {
            out.push(v.to_string());
        }
    }
    out
}

} // verus!
