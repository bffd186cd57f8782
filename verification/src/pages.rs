//! Reading the pages of the HTML book sources: the selectors they use, the
//! links and texts they take from elements, and the chapter lists made of
//! them.

use vstd::prelude::*;
use crate::dom::{
    attr_at, attribute, count_in_document, count_in_element, inner_html_at, inner_html_of,
    match_count, nth_in_document, nth_in_element, parse_selector,
    selector_accepted, selector_error, text_at, text_of, Element, Page, Sel,
};
use crate::text::{chars_of, lemma_trim_idempotent, string_of, trim, trim_seq};
use crate::types::{opt_view, Chapter};

verus! {

/// The index of the first selector of `css` that `scraper` refuses, -1 when
/// it accepts them all.
pub open spec fn first_refused(css: Seq<&str>, k: int) -> int
    decreases css.len() - k,
{
    if k < 0 || k >= css.len() {
        -1
    } else if !selector_accepted(css[k]@) {
        k
    } else {
        first_refused(css, k + 1)
    }
}

/// What parsing the selectors `css` in order comes to: all of them, or the
/// message of the first one refused.
pub open spec fn selectors_outcome(css: Seq<&str>, r: Result<Vec<Sel>, String>) -> bool {
    let k = first_refused(css, 0);
    match r {
        Ok(v) => k == -1 && v@.len() == css.len() && forall|j: int|
            0 <= j < css.len() ==> #[trigger] v@[j].css() == css[j]@,
        Err(e) => k >= 0 && e@ == selector_error(css[k]@),
    }
}

/// Parses the selectors `css` in order, stopping at the first one refused.
pub fn parse_selectors(css: &Vec<&str>) -> (r: Result<Vec<Sel>, String>)
    ensures
        selectors_outcome(css@, r),
{
    let mut out: Vec<Sel> = Vec::new();
    let mut k: usize = 0;
    while k < css.len()
        invariant
            k <= css.len(),
            out@.len() == k,
            forall|j: int| 0 <= j < k ==> #[trigger] out@[j].css() == css@[j]@,
            first_refused(css@, 0) == first_refused(css@, k as int),
        decreases css.len() - k,
    {
        match parse_selector(css[k]) {
            Ok(sel) => {
                out.push(sel);
            },
            Err(e) => {
                return Err(e);
            },
        }
        k = k + 1;
    }
    Ok(out)
}

/// The text of the first element that `css` matches below the element that
/// `at` reaches, if there is one.
pub open spec fn first_text_at(page: Seq<char>, at: Seq<(Seq<char>, int)>, css: Seq<char>) -> Option<
    Seq<char>,
> {
    if match_count(page, at, css) > 0 {
        Some(text_at(page, at.push((css, 0))))
    } else {
        None
    }
}

/// The inner HTML of the first element that `css` matches below the element
/// that `at` reaches, if there is one.
pub open spec fn first_inner_html_at(
    page: Seq<char>,
    at: Seq<(Seq<char>, int)>,
    css: Seq<char>,
) -> Option<Seq<char>> {
    if match_count(page, at, css) > 0 {
        Some(inner_html_at(page, at.push((css, 0))))
    } else {
        None
    }
}

/// The text of the first element that `s` matches in the document.
pub fn first_text_in_document(p: &Page, s: &Sel) -> (r: Option<String>)
    ensures
        opt_view(r) == first_text_at(p.source(), seq![], s.css()),
{
    if count_in_document(p, s) > 0 {
        let e = nth_in_document(p, s, 0);
        assert(seq![(s.css(), 0int)] =~= Seq::<(Seq<char>, int)>::empty().push((s.css(), 0int)));
        Some(text_of(&e))
    } else {
        None
    }
}

/// The inner HTML of the first element that `s` matches in the document.
pub fn first_inner_html_in_document(p: &Page, s: &Sel) -> (r: Option<String>)
    ensures
        opt_view(r) == first_inner_html_at(p.source(), seq![], s.css()),
{
    if count_in_document(p, s) > 0 {
        let e = nth_in_document(p, s, 0);
        assert(seq![(s.css(), 0int)] =~= Seq::<(Seq<char>, int)>::empty().push((s.css(), 0int)));
        Some(inner_html_of(&e))
    } else {
        None
    }
}

/// The text of the first element that `s` matches below `e`.
pub fn first_text_in(e: &Element, s: &Sel) -> (r: Option<String>)
    ensures
        opt_view(r) == first_text_at(e.page(), e.path(), s.css()),
{
    if count_in_element(e, s) > 0 {
        let c = nth_in_element(e, s, 0);
        Some(text_of(&c))
    } else {
        None
    }
}

/// A link element as the chapter lists read it: its `href` attribute, if it
/// has one, and its text.
pub struct Link {
    pub href: Option<String>,
    pub text: String,
}

/// What a link holds, as text.
pub struct LinkView {
    pub href: Option<Seq<char>>,
    pub text: Seq<char>,
}

pub open spec fn link_view(l: Link) -> LinkView {
    LinkView { href: opt_view(l.href), text: l.text@ }
}

pub open spec fn link_views(links: Seq<Link>) -> Seq<LinkView> {
    links.map_values(|l: Link| link_view(l))
}

/// The link that the element `at` reaches holds: its `href` and its text.
pub open spec fn link_at(page: Seq<char>, at: Seq<(Seq<char>, int)>) -> LinkView {
    LinkView { href: attr_at(page, at, "href"@), text: text_at(page, at) }
}

/// The links of the elements that `css` matches in the document, in order.
pub open spec fn page_links(page: Seq<char>, css: Seq<char>) -> Seq<LinkView> {
    Seq::new(
        match_count(page, seq![], css) as nat,
        |k: int| link_at(page, seq![(css, k)]),
    )
}

/// The `href` of a link, the empty text when it has none.
pub open spec fn href_of(href: Option<Seq<char>>) -> Seq<char> {
    match href {
        Some(h) => h,
        None => seq![],
    }
}

/// A link gives a chapter when its `href` and its trimmed text are both
/// non-empty.
pub open spec fn gives_chapter(l: LinkView) -> bool {
    href_of(l.href).len() > 0 && trim_seq(l.text).len() > 0
}

/// The links that give chapters, in order.
pub open spec fn chapter_links(links: Seq<LinkView>) -> Seq<LinkView>
    decreases links.len(),
{
    if links.len() == 0 {
        seq![]
    } else {
        chapter_links(links.drop_last()) + (if gives_chapter(links.last()) {
            seq![links.last()]
        } else {
            seq![]
        })
    }
}

/// `c` is the chapter of link `l` when hrefs become URLs by `url`.
pub open spec fn chapter_of(l: LinkView, c: Chapter, url: spec_fn(Seq<char>) -> Seq<char>) -> bool {
    c.title@ == trim_seq(l.text) && c.item_id@ == url(href_of(l.href))
}

/// `chapters` are the chapters of the links that give one, in order.
pub open spec fn chapters_of(
    links: Seq<LinkView>,
    chapters: Seq<Chapter>,
    url: spec_fn(Seq<char>) -> Seq<char>,
) -> bool {
    let given = chapter_links(links);
    chapters.len() == given.len() && forall|k: int|
        0 <= k < given.len() ==> chapter_of(given[k], #[trigger] chapters[k], url)
}

proof fn lemma_chapter_links(links: Seq<LinkView>)
    ensures
        chapter_links(links).len() <= links.len(),
        forall|k: int| 0 <= k < chapter_links(links).len() ==> gives_chapter(
            #[trigger] chapter_links(links)[k],
        ),
        (forall|j: int| 0 <= j < links.len() ==> gives_chapter(#[trigger] links[j]))
            ==> chapter_links(links) == links,
    decreases links.len(),
{
    if links.len() > 0 {
        lemma_chapter_links(links.drop_last());
        let prev = chapter_links(links.drop_last());
        assert forall|k: int| 0 <= k < chapter_links(links).len() implies gives_chapter(
            #[trigger] chapter_links(links)[k],
        ) by {
            if k < prev.len() {
                assert(chapter_links(links)[k] == prev[k]);
            }
        }
        if forall|j: int| 0 <= j < links.len() ==> gives_chapter(#[trigger] links[j]) {
            assert forall|j: int| 0 <= j < links.drop_last().len() implies gives_chapter(
                #[trigger] links.drop_last()[j],
            ) by {
                assert(links.drop_last()[j] == links[j]);
            }
            assert(gives_chapter(links[links.len() - 1]));
            assert(chapter_links(links) =~= links);
        }
    } else {
        assert(chapter_links(links) =~= links);
    }
}

/// A chapter list holds no more chapters than there are links; every
/// chapter has a title that is not empty and has no white space at its ends;
/// and when every link has an `href` and a text, each link gives the
/// chapter at its own place.
pub proof fn chapters_are_titled(
    links: Seq<LinkView>,
    chapters: Seq<Chapter>,
    url: spec_fn(Seq<char>) -> Seq<char>,
)
    requires
        chapters_of(links, chapters, url),
    ensures
        chapters.len() <= links.len(),
        forall|k: int|
            0 <= k < chapters.len() ==> #[trigger] chapters[k].title@.len() > 0 && trim_seq(
                chapters[k].title@,
            ) == chapters[k].title@,
        (forall|j: int| 0 <= j < links.len() ==> href_of(#[trigger] links[j].href).len() > 0
            && trim_seq(links[j].text).len() > 0) ==> chapters.len() == links.len() && forall|k: int|
            0 <= k < links.len() ==> #[trigger] chapters[k].title@ == trim_seq(links[k].text)
                && chapters[k].item_id@ == url(href_of(links[k].href)),
{
    lemma_chapter_links(links);
    let given = chapter_links(links);
    assert forall|k: int| 0 <= k < chapters.len() implies #[trigger] chapters[k].title@.len() > 0
        && trim_seq(chapters[k].title@) == chapters[k].title@ by {
        assert(gives_chapter(given[k]));
        assert(chapter_of(given[k], chapters[k], url));
        lemma_trim_idempotent(given[k].text);
    }
    if forall|j: int| 0 <= j < links.len() ==> href_of(#[trigger] links[j].href).len() > 0
        && trim_seq(links[j].text).len() > 0 {
        assert forall|j: int| 0 <= j < links.len() implies gives_chapter(#[trigger] links[j]) by {
            assert(href_of(links[j].href).len() > 0);
        }
        assert forall|k: int| 0 <= k < links.len() implies #[trigger] chapters[k].title@
            == trim_seq(links[k].text) && chapters[k].item_id@ == url(href_of(links[k].href)) by {
            assert(chapter_of(given[k], chapters[k], url));
        }
    }
}

/// The chapters of the links that have a non-empty `href` and a non-empty
/// trimmed text: the trimmed text as title, the `href` made a URL by
/// `to_url` as item id.
pub fn chapters_from_links<F: Fn(&str) -> String>(
    links: &Vec<Link>,
    to_url: F,
    Ghost(url): Ghost<spec_fn(Seq<char>) -> Seq<char>>,
) -> (chapters: Vec<Chapter>)
    requires
        forall|p: &str| call_requires(to_url, (p,)),
        forall|p: &str, u: String| #[trigger] call_ensures(to_url, (p,), u) ==> u@ == url(p@),
    ensures
        chapters_of(link_views(links@), chapters@, url),
{
    let mut chapters: Vec<Chapter> = Vec::new();
    let mut i: usize = 0;
    while i < links.len()
        invariant
            i <= links.len(),
            forall|p: &str| call_requires(to_url, (p,)),
            forall|p: &str, u: String| #[trigger] call_ensures(to_url, (p,), u) ==> u@ == url(p@),
            chapters_of(link_views(links@.take(i as int)), chapters@, url),
        decreases links.len() - i,
    {
        let l = &links[i];
        let ghost before = chapters@;
        let ghost lv = link_views(links@.take(i + 1));
        assert(lv.drop_last() =~= link_views(links@.take(i as int)));
        assert(lv.last() == link_view(links@[i as int]));
        let title = trim(&chars_of(l.text.as_str()));
        match &l.href {
            Some(h) => {
                if !h.as_str().is_empty() && title.len() > 0 {
                    let item = to_url(h.as_str());
                    chapters.push(Chapter { title: string_of(&title), item_id: item });
                    assert(chapters@.last() == chapters@[chapters@.len() - 1]);
                } else {
                    assert(!gives_chapter(link_view(links@[i as int])));
                }
            },
            None => {},
        }
        i = i + 1;
        assert(chapters_of(link_views(links@.take(i as int)), chapters@, url)) by {
            let given = chapter_links(lv);
            let prev = chapter_links(link_views(links@.take(i - 1)));
            assert forall|k: int| 0 <= k < given.len() implies chapter_of(
                given[k],
                #[trigger] chapters@[k],
                url,
            ) by {
                if k < prev.len() {
                    assert(given[k] == prev[k]);
                    assert(chapters@[k] == before[k]);
                }
            }
        }
    }
    assert(links@.take(links.len() as int) =~= links@);
    chapters
}

/// The link record of element `e`: its `href` attribute and its text.
pub(crate) fn link_of(e: &Element) -> (l: Link)
    ensures
        link_view(l) == link_at(e.page(), e.path()),
{
    Link { href: attribute(e, "href"), text: text_of(e) }
}

/// The links of the elements that `s` matches in the document, in order.
pub fn page_link_records(p: &Page, s: &Sel) -> (links: Vec<Link>)
    ensures
        link_views(links@) == page_links(p.source(), s.css()),
{
    let n = count_in_document(p, s);
    let mut links: Vec<Link> = Vec::new();
    let mut i: usize = 0;
    while i < n
        invariant
            i <= n,
            n == match_count(p.source(), seq![], s.css()),
            links@.len() == i,
            forall|k: int|
                0 <= k < i ==> #[trigger] link_view(links@[k]) == link_at(
                    p.source(),
                    seq![(s.css(), k)],
                ),
        decreases n - i,
    {
        let l = link_of(&nth_in_document(p, s, i));
        links.push(l);
        i = i + 1;
    }
    assert(link_views(links@) =~= page_links(p.source(), s.css()));
    links
}

} // verus!
