//! The HTML documents of the book sources, parsed and queried by the
//! `scraper` crate.
//!
//! An element is found from the document by a chain of selections: each step
//! `(css, k)` takes the `k`-th element, in document order, that the selector
//! group `css` matches below the element reached so far (below the whole
//! document for the first step). What `scraper` reads of an element (how many
//! elements a selector matches below it, an attribute, its text, its inner
//! HTML) is named as a function of the page's text and that chain alone.

use vstd::prelude::*;
use crate::types::opt_view;

verus! {

#[verifier::external_type_specification]
#[verifier::external_body]
pub struct ExHtml(scraper::Html);

#[verifier::external_type_specification]
#[verifier::external_body]
pub struct ExSelector(scraper::Selector);

#[verifier::external_type_specification]
#[verifier::external_body]
pub struct ExElementRef<'a>(scraper::ElementRef<'a>);

/// Whether `scraper::Selector::parse` accepts the CSS selector group `css`.
pub uninterp spec fn selector_accepted(css: Seq<char>) -> bool;

/// The message of the error with which `scraper::Selector::parse` refuses `css`.
pub uninterp spec fn selector_error(css: Seq<char>) -> Seq<char>;

/// How many elements the selector group `css` matches below the element that
/// the chain `at` reaches in the document parsed from `page` (below the whole
/// document when `at` is empty).
pub uninterp spec fn match_count(page: Seq<char>, at: Seq<(Seq<char>, int)>, css: Seq<char>) -> int;

/// The value of attribute `name` of the element that `at` reaches in the
/// document parsed from `page`, if it has one.
pub uninterp spec fn attr_at(page: Seq<char>, at: Seq<(Seq<char>, int)>, name: Seq<char>) -> Option<
    Seq<char>,
>;

/// The text under the element that `at` reaches in the document parsed from
/// `page`: its text nodes joined in document order.
pub uninterp spec fn text_at(page: Seq<char>, at: Seq<(Seq<char>, int)>) -> Seq<char>;

/// The serialized HTML of the children of the element that `at` reaches in
/// the document parsed from `page`.
pub uninterp spec fn inner_html_at(page: Seq<char>, at: Seq<(Seq<char>, int)>) -> Seq<char>;

/// A parsed document and the text it was parsed from.
pub struct Page {
    doc: scraper::Html,
    source: Ghost<Seq<char>>,
}

impl Page {
    /// The text the document was parsed from.
    pub closed spec fn source(&self) -> Seq<char> {
        self.source@
    }
}

/// A parsed selector group and its text.
pub struct Sel {
    sel: scraper::Selector,
    css: Ghost<Seq<char>>,
}

impl Sel {
    /// The text of the selector group.
    pub closed spec fn css(&self) -> Seq<char> {
        self.css@
    }
}

/// An element of a parsed document, with the page's text and the chain of
/// selections that reached it.
pub struct Element<'a> {
    el: scraper::ElementRef<'a>,
    page: Ghost<Seq<char>>,
    at: Ghost<Seq<(Seq<char>, int)>>,
}

impl<'a> Element<'a> {
    /// The text of the page the element belongs to.
    pub closed spec fn page(&self) -> Seq<char> {
        self.page@
    }

    /// The chain of selections that reached the element.
    pub closed spec fn path(&self) -> Seq<(Seq<char>, int)> {
        self.at@
    }
}

/// Calls `scraper::Html::parse_document`, which parses any text into a
/// document tree (it does not fail), and keeps the text beside the tree.
#[verifier::external_body]
pub(crate) fn parse_document(text: &str) -> (p: Page)
    ensures
        p.source() == text@,
{
    Page { doc: scraper::Html::parse_document(text), source: Ghost(text@) }
}

/// Calls `scraper::Selector::parse` and turns its error into its message.
/// The outcome is taken to depend on `css` alone: `Ok` exactly when
/// `selector_accepted(css)`, otherwise the message `selector_error(css)`.
#[verifier::external_body]
pub(crate) fn parse_selector(css: &str) -> (r: Result<Sel, String>)
    ensures
        r is Ok == selector_accepted(css@),
        r matches Ok(s) ==> s.css() == css@,
        r matches Err(e) ==> e@ == selector_error(css@),
{
    match scraper::Selector::parse(css) {
        Ok(sel) => Ok(Sel { sel, css: Ghost(css@) }),
        Err(e) => Err(e.to_string()),
    }
}

/// Calls `scraper::Html::select` and counts the matches: taken to be
/// `match_count` of the page's text, the empty chain and the selector.
#[verifier::external_body]
pub(crate) fn count_in_document(p: &Page, s: &Sel) -> (n: usize)
    ensures
        n as int == match_count(p.source(), seq![], s.css()),
{
    p.doc.select(&s.sel).count()
}

/// Calls `scraper::Html::select` and takes the `k`-th match (there is one,
/// as `requires` says), reached by the chain `[(css, k)]`.
#[verifier::external_body]
pub(crate) fn nth_in_document<'a>(p: &'a Page, s: &Sel, k: usize) -> (e: Element<'a>)
    requires
        k < match_count(p.source(), seq![], s.css()),
    ensures
        e.page() == p.source(),
        e.path() == seq![(s.css(), k as int)],
{
    let el = p.doc.select(&s.sel).nth(k).unwrap();
    Element { el, page: Ghost(p.source@), at: Ghost(seq![(s.css@, k as int)]) }
}

/// Calls `scraper::ElementRef::select` and counts the matches below the
/// element: taken to be `match_count` of its page, its chain and the selector.
#[verifier::external_body]
pub(crate) fn count_in_element(e: &Element, s: &Sel) -> (n: usize)
    ensures
        n as int == match_count(e.page(), e.path(), s.css()),
{
    e.el.select(&s.sel).count()
}

/// Calls `scraper::ElementRef::select` and takes the `k`-th match below the
/// element (there is one, as `requires` says): its chain is the element's
/// with `(css, k)` added.
#[verifier::external_body]
pub(crate) fn nth_in_element<'a>(e: &Element<'a>, s: &Sel, k: usize) -> (c: Element<'a>)
    requires
        k < match_count(e.page(), e.path(), s.css()),
    ensures
        c.page() == e.page(),
        c.path() == e.path().push((s.css(), k as int)),
{
    let el = e.el.select(&s.sel).nth(k).unwrap();
    Element { el, page: Ghost(e.page@), at: Ghost(e.at@.push((s.css@, k as int))) }
}

/// Calls `scraper::ElementRef::attr`: taken to be `attr_at` of the element's
/// page and chain and the attribute's name.
#[verifier::external_body]
pub(crate) fn attribute(e: &Element, name: &str) -> (r: Option<String>)
    ensures
        opt_view(r) == attr_at(e.page(), e.path(), name@),
{
    e.el.attr(name).map(|v| v.to_string())
}

/// Calls `scraper::ElementRef::text` and joins the text nodes under the
/// element: taken to be `text_at` of the element's page and chain.
#[verifier::external_body]
pub(crate) fn text_of(e: &Element) -> (r: String)
    ensures
        r@ == text_at(e.page(), e.path()),
{
    e.el.text().collect::<String>()
}

/// Calls `scraper::ElementRef::inner_html`: taken to be `inner_html_at` of
/// the element's page and chain.
#[verifier::external_body]
pub(crate) fn inner_html_of(e: &Element) -> (r: String)
    ensures
        r@ == inner_html_at(e.page(), e.path()),
{
    e.el.inner_html()
}

} // verus!
