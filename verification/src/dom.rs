//! The document/tree collaborator: a thin trusted layer over the `scraper`
//! crate.
//!
//! Parsed documents, compiled selectors and element handles are opaque here;
//! every value read out of a document is handed to the verified pipeline as a
//! plain string, and all decisions about those strings are made by verified
//! code.

use vstd::prelude::*;

verus! {

#[verifier::external_type_specification]
#[verifier::external_body]
pub struct ExHtml(scraper::Html);

#[verifier::external_type_specification]
#[verifier::external_body]
pub struct ExSelector(scraper::Selector);

#[verifier::external_type_specification]
#[verifier::external_body]
pub struct ExElementRef<'a>(scraper::ElementRef<'a>);

/// Relies on `scraper::Html::parse_document`: parsing never fails hard, every
/// input yields a document tree.
#[verifier::external_body]
pub(crate) fn parse_html(body: &str) -> scraper::Html {
    scraper::Html::parse_document(body)
}

/// Relies on `scraper::Selector::parse`: a well-formed CSS selector group
/// compiles to a selector, a malformed one to an error.
#[verifier::external_body]
pub(crate) fn parse_selector(sel: &str) -> Option<scraper::Selector> {
    scraper::Selector::parse(sel).ok()
}

/// Relies on `scraper::Html::select`: the first element of the document
/// matching the selector, if any.
#[verifier::external_body]
pub(crate) fn select_first<'a>(
    doc: &'a scraper::Html,
    sel: &scraper::Selector,
) -> Option<scraper::ElementRef<'a>> {
    doc.select(sel).next()
}

/// Relies on `scraper::Html::select`: all elements of the document matching
/// the selector, in tree order.
#[verifier::external_body]
pub(crate) fn select_all<'a>(
    doc: &'a scraper::Html,
    sel: &scraper::Selector,
) -> Vec<scraper::ElementRef<'a>> {
    doc.select(sel).collect()
}

/// Relies on `scraper::ElementRef::select`: the first descendant element
/// matching the selector, if any.
#[verifier::external_body]
pub(crate) fn select_first_within<'a>(
    el: &scraper::ElementRef<'a>,
    sel: &scraper::Selector,
) -> Option<scraper::ElementRef<'a>> {
    el.select(sel).next()
}

/// Relies on `scraper::ElementRef::select`: all descendant elements matching
/// the selector, in tree order.
#[verifier::external_body]
pub(crate) fn select_all_within<'a>(
    el: &scraper::ElementRef<'a>,
    sel: &scraper::Selector,
) -> Vec<scraper::ElementRef<'a>> {
    el.select(sel).collect()
}

/// Relies on `scraper::ElementRef::text`: the concatenation of all descendant
/// text nodes of the element, in tree order.
#[verifier::external_body]
pub(crate) fn text_of(el: &scraper::ElementRef<'_>) -> String {
    el.text().collect()
}

/// Relies on `scraper::ElementRef::attr`: the value of the named attribute on
/// the element, if present.
#[verifier::external_body]
pub(crate) fn attr_of(el: &scraper::ElementRef<'_>, name: &str) -> Option<String> {
    el.attr(name).map(|v| v.to_string())
}

} // verus!
