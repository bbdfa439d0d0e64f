//! The parsed page: the HTML parser and the selector engine of `scraper`, as far as the
//! extraction uses them.
//!
//! Nothing in this file is proved. Each function makes one call into `scraper`, and its
//! contract claims one thing of that call: that what it returns depends on its arguments
//! alone. The contract says so by giving the result a name. What a page holds is then
//! stated over these names; what the parser and the selector engine make of a given text
//! is not stated anywhere.
use vstd::prelude::*;
use scraper::{ElementRef, Html, Selector};

verus! {

/// `scraper::Html`, a parsed document, taken as it is.
#[verifier::external_type_specification]
#[verifier::external_body]
pub struct ExHtml(scraper::Html);

/// `scraper::ElementRef`, an element of a parsed document, taken as it is.
#[verifier::external_type_specification]
#[verifier::external_body]
pub struct ExElementRef<'a>(scraper::ElementRef<'a>);

/// `scraper::Selector`, a compiled selector group, taken as it is.
#[verifier::external_type_specification]
#[verifier::external_body]
pub struct ExSelector(scraper::Selector);

/// The tree that `Html::parse_document` builds from a page's text.
pub uninterp spec fn document_of(body: Seq<char>) -> Html;

/// What `Selector::parse` makes of a selector group: `None` where it is refused.
pub uninterp spec fn selector_of(css: Seq<char>) -> Option<Selector>;

/// The elements that `Html::select` yields, in the order in which it yields them.
pub uninterp spec fn document_matches(document: Html, selector: Selector) -> Seq<ElementRef<'static>>;

/// The elements that `ElementRef::select` yields, in the order in which it yields them.
pub uninterp spec fn element_matches(scope: ElementRef<'static>, selector: Selector) -> Seq<ElementRef<'static>>;

/// The first item that `ElementRef::text` yields, if it yields any.
pub uninterp spec fn element_text(element: ElementRef<'static>) -> Option<Seq<char>>;

/// What `ElementRef::attr` returns for an attribute's name.
pub uninterp spec fn element_attr(element: ElementRef<'static>, name: Seq<char>) -> Option<Seq<char>>;

/// `Html::parse_document`: parses a page. The parser recovers from every error in the
/// markup, so there is always a tree. Claimed: the tree depends on the text alone.
#[verifier::external_body]
pub(crate) fn parse_document(body: &str) -> (document: Html)
    ensures
        document == document_of(body@),
{
    Html::parse_document(body)
}

/// `Selector::parse`: compiles a selector group, or refuses it. Claimed: whether it is
/// refused, and what it compiles to, depends on the text alone.
#[verifier::external_body]
pub(crate) fn compile_selector(css: &str) -> (r: Option<Selector>)
    ensures
        r == selector_of(css@),
{
    Selector::parse(css).ok()
}

/// `Html::select`, run to its end: the elements of the document that match `selector`.
/// Claimed: which elements, and in which order, depends on the tree and the selector
/// alone.
#[verifier::external_body]
pub(crate) fn select_all<'a>(document: &'a Html, selector: &Selector) -> (r: Vec<ElementRef<'a>>)
    ensures
        r@ == document_matches(*document, *selector),
{
    document.select(selector).collect()
}

/// `ElementRef::select`, run to its end: the elements below `scope` that match
/// `selector`. Claimed: which elements, and in which order, depends on the scope and the
/// selector alone.
#[verifier::external_body]
pub(crate) fn select_within<'a>(scope: &ElementRef<'a>, selector: &Selector) -> (r: Vec<ElementRef<'a>>)
    ensures
        r@ == element_matches(*scope, *selector),
{
    scope.select(selector).collect()
}

/// `ElementRef::text`, asked once: the first text node below `element`, if there is
/// one. Claimed: the text depends on the element alone.
#[verifier::external_body]
pub(crate) fn first_text(element: &ElementRef) -> (r: Option<String>)
    ensures
        r.deep_view() == element_text(*element),
{
    element.text().next().map(str::to_owned)
}

/// `ElementRef::attr`: the value of the attribute `name` of `element`, if it has that
/// attribute. Claimed: the value depends on the element and the name alone.
#[verifier::external_body]
pub(crate) fn attribute(element: &ElementRef, name: &str) -> (r: Option<String>)
    ensures
        r.deep_view() == element_attr(*element, name@),
{
    element.attr(name).map(str::to_owned)
}

} // verus!
