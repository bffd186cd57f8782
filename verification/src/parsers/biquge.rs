//! The biquge900 source: GBK pages of a mobile site, read with CSS selectors.

use vstd::prelude::*;
use vstd::utf8::encode_utf8;
use crate::codec::{decode_gbk, encode_gbk, gbk_decoded, gbk_encoded};
use crate::dom::{
    attr_at, attribute, count_in_element, match_count, nth_in_element, parse_document,
    nth_in_document, count_in_document, selector_error,
};
use crate::pages::{
    chapters_from_links, chapters_of, first_inner_html_at, first_inner_html_in_document,
    first_refused, first_text_at, first_text_in, first_text_in_document, href_of,
    page_link_records, page_links, parse_selectors,
};
use crate::classes::ascii_word;
use crate::patterns::{
    closing_mark_at, lemma_element_after_prefix, lemma_plain_element_matches, plain_element, line_break_ascii, markup_tag, match_line_break_ascii, match_markup_tag,
    match_same_named_element, same_named_element,
};
use crate::text::{
    chars_of, contains_seq, copy_range, lemma_replace_once, lemma_rewrite_after_prefix,
    lemma_rewrite_nothing, lemma_trim_idempotent, literal, occurs_at, shifted, paragraph_markup, paragraph_text, push_all, replace_literal,
    replace_matches, replace_seq, rewrite_all, starts_at, string_of, trim, trim_seq,
};
use crate::types::{opt_view, Book, Chapter, ChapterContent};

verus! {

/// The site's address.
pub open spec fn base() -> Seq<char> {
    "http://m.biquge900.com"@
}

/// `p` without the `./` prefixes it starts with (`trim_start_matches("./")`).
pub open spec fn without_dot_slashes(p: Seq<char>) -> Seq<char>
    decreases p.len(),
{
    if p.len() >= 2 && p[0] == '.' && p[1] == '/' {
        without_dot_slashes(p.skip(2))
    } else {
        p
    }
}

/// The absolute URL of a link on the site: empty stays empty, a URL that
/// starts with `http` stays as it is, a path from the root gets the site's
/// address in front, any other path (its leading `./` removed) gets the
/// address and `/`.
pub open spec fn absolute_url(path: Seq<char>) -> Seq<char> {
    if path.len() == 0 {
        seq![]
    } else if occurs_at(path, 0, "http"@) {
        path
    } else if path[0] == '/' {
        base() + path
    } else {
        base() + seq!['/'] + without_dot_slashes(path)
    }
}

pub open spec fn absolute() -> spec_fn(Seq<char>) -> Seq<char> {
    |p: Seq<char>| absolute_url(p)
}

fn strip_dot_slashes(p: &Vec<char>) -> (out: Vec<char>)
    ensures
        out@ == without_dot_slashes(p@),
{
    let mut k: usize = 0;
    assert(p@.skip(0) =~= p@);
    while k < p.len() && p.len() - k >= 2 && p[k] == '.' && p[k + 1] == '/'
        invariant
            k <= p.len(),
            without_dot_slashes(p@) == without_dot_slashes(p@.skip(k as int)),
        decreases p.len() - k,
    {
        assert(p@.skip(k as int).skip(2) =~= p@.skip(k + 2));
        k = k + 2;
    }
    assert(p@.skip(k as int) =~= p@.subrange(k as int, p.len() as int));
    copy_range(p, k, p.len())
}

/// The absolute URL of a link on the site.
pub fn to_abs_url(path: &str) -> (url: String)
    ensures
        url@ == absolute_url(path@),
{
    let p = chars_of(path);
    if p.len() == 0 {
        return String::new();
    }
    let http = chars_of("http");
    if starts_at(&p, 0, &http) {
        return path.to_string();
    }
    let mut out = chars_of("http://m.biquge900.com");
    if p[0] == '/' {
        push_all(&mut out, &p);
    } else {
        out.push('/');
        let rest = strip_dot_slashes(&p);
        push_all(&mut out, &rest);
    }
    string_of(&out)
}

/// An absolute URL stays as it is: making a URL absolute twice is making it
/// absolute once.
pub proof fn absolute_url_idempotent(path: Seq<char>)
    ensures
        absolute_url(absolute_url(path)) == absolute_url(path),
{
    let u = absolute_url(path);
    if path.len() > 0 && !occurs_at(path, 0, "http"@) {
        reveal_strlit("http");
        reveal_strlit("http://m.biquge900.com");
        assert(u.subrange(0, 4) =~= "http"@);
    }
}

/// The address of the search form.
pub open spec fn search_address() -> Seq<char> {
    base() + "/modules/article/search.php"@
}

pub fn search_url() -> (url: String)
    ensures
        url@ == search_address(),
{
    let mut out = chars_of("http://m.biquge900.com");
    push_all(&mut out, &chars_of("/modules/article/search.php"));
    string_of(&out)
}

/// The `Referer` the site's pages are asked for with.
pub fn referer() -> (r: String)
    ensures
        r@ == base() + seq!['/'],
{
    let mut out = chars_of("http://m.biquge900.com");
    out.push('/');
    string_of(&out)
}

/// The form body of a search: `searchkey=`, the keyword in GBK, `&t=1`.
pub open spec fn search_form(keyword: Seq<char>) -> Seq<u8> {
    encode_utf8("searchkey="@) + gbk_encoded(keyword) + encode_utf8("&t=1"@)
}

fn bytes_of(s: &str) -> (v: Vec<u8>)
    ensures
        v@ == encode_utf8(s@),
{
    let b = s.as_bytes();
    let mut v: Vec<u8> = Vec::new();
    let mut i: usize = 0;
    while i < b.len()
        invariant
            i <= b@.len(),
            b@ == encode_utf8(s@),
            v@ == b@.take(i as int),
        decreases b.len() - i,
    {
        v.push(b[i]);
        i = i + 1;
        assert(v@ =~= b@.take(i as int));
    }
    assert(b@.take(b@.len() as int) =~= b@);
    v
}

pub fn search_body(keyword: &str) -> (body: Vec<u8>)
    ensures
        body@ == search_form(keyword@),
{
    let mut body = bytes_of("searchkey=");
    let mut kw = encode_gbk(keyword);
    body.append(&mut kw);
    let mut tail = bytes_of("&t=1");
    body.append(&mut tail);
    body
}

/// The text of a page as the site sends it (GBK).
pub fn page_text(bytes: &[u8]) -> (text: String)
    ensures
        text@ == gbk_decoded(bytes@),
{
    decode_gbk(bytes)
}

/// What a search hit (a `.hot_sale` element) holds, read from its first `a`
/// element: the `href`, and the texts of the first `.title`, `p`, `.author`
/// and `.review` elements inside it.
pub struct SearchLink {
    pub href: Option<String>,
    pub title: Option<String>,
    pub first_p: Option<String>,
    pub author: Option<String>,
    pub review: Option<String>,
}

/// What a search hit's link holds, as text.
pub struct SearchLinkView {
    pub href: Option<Seq<char>>,
    pub title: Option<Seq<char>>,
    pub first_p: Option<Seq<char>>,
    pub author: Option<Seq<char>>,
    pub review: Option<Seq<char>>,
}

pub open spec fn link_view(l: SearchLink) -> SearchLinkView {
    SearchLinkView {
        href: opt_view(l.href),
        title: opt_view(l.title),
        first_p: opt_view(l.first_p),
        author: opt_view(l.author),
        review: opt_view(l.review),
    }
}

pub open spec fn hit_view(h: Option<SearchLink>) -> Option<SearchLinkView> {
    match h {
        Some(l) => Some(link_view(l)),
        None => None,
    }
}

pub open spec fn hit_views(hits: Seq<Option<SearchLink>>) -> Seq<Option<SearchLinkView>> {
    hits.map_values(|h: Option<SearchLink>| hit_view(h))
}

/// The hit that the `.hot_sale` element reached by `at` holds on `page`:
/// none when it has no `a` element, otherwise what its first `a` holds.
pub open spec fn hit_at(page: Seq<char>, at: Seq<(Seq<char>, int)>) -> Option<SearchLinkView> {
    if match_count(page, at, "a"@) <= 0 {
        None
    } else {
        let a = at.push(("a"@, 0));
        Some(
            SearchLinkView {
                href: attr_at(page, a, "href"@),
                title: first_text_at(page, a, ".title"@),
                first_p: first_text_at(page, a, "p"@),
                author: first_text_at(page, a, ".author"@),
                review: first_text_at(page, a, ".review"@),
            },
        )
    }
}

/// The hits of a search result page: one per `.hot_sale` element, in order.
pub open spec fn page_hits(page: Seq<char>) -> Seq<Option<SearchLinkView>> {
    Seq::new(
        match_count(page, seq![], ".hot_sale"@) as nat,
        |k: int| hit_at(page, seq![(".hot_sale"@, k)]),
    )
}

/// The name of a hit: the trimmed text of its `.title`, or, when it has
/// none, of its first `p`; empty when it has neither.
pub open spec fn hit_name(l: SearchLinkView) -> Seq<char> {
    match l.title {
        Some(t) => trim_seq(t),
        None => match l.first_p {
            Some(p) => trim_seq(p),
            None => seq![],
        },
    }
}

/// A hit gives a book when it has a link with a non-empty `href` and a
/// non-empty name.
pub open spec fn gives_book(h: Option<SearchLinkView>) -> bool {
    h matches Some(l) && href_of(l.href).len() > 0 && hit_name(l).len() > 0
}

/// `r` is `o` trimmed.
pub open spec fn trimmed_opt(o: Option<Seq<char>>, r: Option<String>) -> bool {
    match (o, r) {
        (Some(a), Some(b)) => b@ == trim_seq(a),
        (None, None) => true,
        _ => false,
    }
}

/// `b` is the book of hit link `l`.
pub open spec fn book_of(l: SearchLinkView, b: Book) -> bool {
    &&& b.title@ == hit_name(l)
    &&& trimmed_opt(l.author, b.author)
    &&& trimmed_opt(l.review, b.kind)
    &&& b.book_id@ == absolute_url(href_of(l.href))
    &&& b.source_key@ == "biquge900"@
    &&& b.source@ == "biquge900"@
    &&& b.tab@ == Seq::<char>::empty()
    &&& b.last_chapter is None
    &&& b.cover is None
    &&& b.intro is None
    &&& b.word_count is None
}

/// The links of the hits that give books, in order.
pub open spec fn book_hits(hits: Seq<Option<SearchLinkView>>) -> Seq<SearchLinkView>
    decreases hits.len(),
{
    if hits.len() == 0 {
        seq![]
    } else {
        book_hits(hits.drop_last()) + (if gives_book(hits.last()) {
            seq![hits.last()->0]
        } else {
            seq![]
        })
    }
}

/// `books` are the books of the hits that give one, in order.
pub open spec fn books_of(hits: Seq<Option<SearchLinkView>>, books: Seq<Book>) -> bool {
    let given = book_hits(hits);
    books.len() == given.len() && forall|k: int|
        0 <= k < given.len() ==> book_of(given[k], #[trigger] books[k])
}

proof fn lemma_book_hits(hits: Seq<Option<SearchLinkView>>)
    ensures
        book_hits(hits).len() <= hits.len(),
        forall|k: int| 0 <= k < book_hits(hits).len() ==> gives_book(
            Some(#[trigger] book_hits(hits)[k]),
        ),
    decreases hits.len(),
{
    if hits.len() > 0 {
        lemma_book_hits(hits.drop_last());
        let prev = book_hits(hits.drop_last());
        assert forall|k: int| 0 <= k < book_hits(hits).len() implies gives_book(
            Some(#[trigger] book_hits(hits)[k]),
        ) by {
            if k < prev.len() {
                assert(book_hits(hits)[k] == prev[k]);
            }
        }
    }
}

/// A link with an address keeps one: the absolute URL of a non-empty path
/// is not empty.
pub proof fn absolute_url_not_empty(path: Seq<char>)
    requires
        path.len() > 0,
    ensures
        absolute_url(path).len() > 0,
{
    reveal_strlit("http://m.biquge900.com");
}

/// A search gives no more books than hits, and every book it gives has a
/// title that is not empty and has no white space at its ends, and an
/// address on the site that is not empty.
pub proof fn found_books_are_named(hits: Seq<Option<SearchLinkView>>, books: Seq<Book>)
    requires
        books_of(hits, books),
    ensures
        books.len() <= hits.len(),
        forall|k: int|
            0 <= k < books.len() ==> #[trigger] books[k].title@.len() > 0 && trim_seq(
                books[k].title@,
            ) == books[k].title@ && books[k].book_id@.len() > 0,
{
    lemma_book_hits(hits);
    let given = book_hits(hits);
    assert forall|k: int| 0 <= k < books.len() implies #[trigger] books[k].title@.len() > 0
        && trim_seq(books[k].title@) == books[k].title@ && books[k].book_id@.len() > 0 by {
        let l = given[k];
        assert(gives_book(Some(l)));
        assert(book_of(l, books[k]));
        match l.title {
            Some(t) => lemma_trim_idempotent(t),
            None => match l.first_p {
                Some(p) => lemma_trim_idempotent(p),
                None => {},
            },
        }
        absolute_url_not_empty(href_of(l.href));
    }
}

fn trimmed(o: &Option<String>) -> (r: Option<String>)
    ensures
        trimmed_opt(opt_view(*o), r),
{
    match o {
        Some(t) => Some(string_of(&trim(&chars_of(t.as_str())))),
        None => None,
    }
}

/// The books of the search hits that have a link with a non-empty `href`
/// and a non-empty name.
pub fn books_from_hits(hits: &Vec<Option<SearchLink>>) -> (books: Vec<Book>)
    ensures
        books_of(hit_views(hits@), books@),
{
    let mut books: Vec<Book> = Vec::new();
    let mut i: usize = 0;
    while i < hits.len()
        invariant
            i <= hits.len(),
            books_of(hit_views(hits@.take(i as int)), books@),
        decreases hits.len() - i,
    {
        let ghost before = books@;
        let ghost hv = hit_views(hits@.take(i + 1));
        assert(hv.drop_last() =~= hit_views(hits@.take(i as int)));
        assert(hv.last() == hit_view(hits@[i as int]));
        match &hits[i] {
            Some(l) => {
                let href = match &l.href {
                    Some(h) => h.as_str(),
                    None => "",
                };
                proof {
                    reveal_strlit("");
                }
                assert(href@ == href_of(opt_view(l.href)));
                let name = match &l.title {
                    Some(t) => trim(&chars_of(t.as_str())),
                    None => match &l.first_p {
                        Some(p) => trim(&chars_of(p.as_str())),
                        None => Vec::new(),
                    },
                };
                assert(name@ == hit_name(link_view(*l)));
                if !href.is_empty() && name.len() > 0 {
                    let book = Book {
                        title: string_of(&name),
                        author: trimmed(&l.author),
                        kind: trimmed(&l.review),
                        last_chapter: None,
                        book_id: to_abs_url(href),
                        source_key: "biquge900".to_string(),
                        source: "biquge900".to_string(),
                        tab: String::new(),
                        cover: None,
                        intro: None,
                        word_count: None,
                    };
                    assert(book_of(link_view(*l), book));
                    books.push(book);
                } else {
                    assert(!gives_book(hit_view(hits@[i as int])));
                }
            },
            None => {
                assert(!gives_book(hit_view(hits@[i as int])));
            },
        }
        i = i + 1;
        assert(books_of(hit_views(hits@.take(i as int)), books@)) by {
            let given = book_hits(hv);
            let prev = book_hits(hit_views(hits@.take(i - 1)));
            assert forall|k: int| 0 <= k < given.len() implies book_of(
                given[k],
                #[trigger] books@[k],
            ) by {
                if k < prev.len() {
                    assert(given[k] == prev[k]);
                    assert(books@[k] == before[k]);
                }
            }
        }
    }
    assert(hits@.take(hits.len() as int) =~= hits@);
    books
}

/// The selectors a search page is read with, in the order they are parsed.
pub open spec fn search_selectors() -> Seq<&'static str> {
    seq![".hot_sale", "a", ".title", ".author", ".review", "p"]
}

/// The books on a search result page (GBK bytes): for each `.hot_sale`
/// element, in order, what its first `a` element holds, kept when it has a
/// non-empty `href` and name. Fails, with the selector parser's message,
/// exactly when a selector is refused.
pub fn search_results(page: &[u8]) -> (r: Result<Vec<Book>, String>)
    ensures
        r is Ok == (first_refused(search_selectors(), 0) == -1),
        r matches Err(e) ==> e@ == selector_error(
            search_selectors()[first_refused(search_selectors(), 0)]@,
        ),
        r matches Ok(books) ==> books_of(page_hits(gbk_decoded(page@)), books@),
{
    let css = vec![".hot_sale", "a", ".title", ".author", ".review", "p"];
    assert(css@ =~= search_selectors());
    let sels = match parse_selectors(&css) {
        Ok(s) => s,
        Err(e) => {
            return Err(e);
        },
    };
    assert(sels@[0].css() == ".hot_sale"@ && sels@[1].css() == "a"@ && sels@[2].css() == ".title"@
        && sels@[3].css() == ".author"@ && sels@[4].css() == ".review"@ && sels@[5].css() == "p"@);
    let text = decode_gbk(page);
    let doc = parse_document(text.as_str());
    let n = count_in_document(&doc, &sels[0]);
    let mut hits: Vec<Option<SearchLink>> = Vec::new();
    let mut i: usize = 0;
    while i < n
        invariant
            sels@.len() == 6,
            sels@[0].css() == ".hot_sale"@,
            sels@[1].css() == "a"@,
            sels@[2].css() == ".title"@,
            sels@[3].css() == ".author"@,
            sels@[4].css() == ".review"@,
            sels@[5].css() == "p"@,
            i <= n,
            n == match_count(doc.source(), seq![], ".hot_sale"@),
            hits@.len() == i,
            forall|k: int|
                0 <= k < i ==> #[trigger] hit_view(hits@[k]) == hit_at(
                    doc.source(),
                    seq![(".hot_sale"@, k)],
                ),
        decreases n - i,
    {
        let hot = nth_in_document(&doc, &sels[0], i);
        let h = &hot;
        if count_in_element(h, &sels[1]) == 0 {
            hits.push(None);
        } else {
            let a = nth_in_element(h, &sels[1], 0);
            let link = SearchLink {
                href: attribute(&a, "href"),
                title: first_text_in(&a, &sels[2]),
                first_p: first_text_in(&a, &sels[5]),
                author: first_text_in(&a, &sels[3]),
                review: first_text_in(&a, &sels[4]),
            };
            hits.push(Some(link));
        }
        i = i + 1;
    }
    let books = books_from_hits(&hits);
    assert(hit_views(hits@) =~= page_hits(doc.source()));
    Ok(books)
}

/// The links of a book's table of contents.
pub open spec fn contents_selectors() -> Seq<&'static str> {
    seq![".directoryArea p a"]
}

/// The chapters of a book page (GBK bytes): each `.directoryArea p a` link,
/// in order, with a non-empty `href` and a non-empty trimmed text, as that
/// text and the link's absolute URL. Fails, with the selector parser's
/// message, exactly when the selector is refused.
pub fn chapters_page(page: &[u8]) -> (r: Result<Vec<Chapter>, String>)
    ensures
        r is Ok == (first_refused(contents_selectors(), 0) == -1),
        r matches Err(e) ==> e@ == selector_error(
            contents_selectors()[first_refused(contents_selectors(), 0)]@,
        ),
        r matches Ok(chapters) ==> chapters_of(
            page_links(gbk_decoded(page@), ".directoryArea p a"@),
            chapters@,
            absolute(),
        ),
{
    let css = vec![".directoryArea p a"];
    assert(css@ =~= contents_selectors());
    let sels = match parse_selectors(&css) {
        Ok(s) => s,
        Err(e) => {
            return Err(e);
        },
    };
    let text = decode_gbk(page);
    let doc = parse_document(text.as_str());
    let links = page_link_records(&doc, &sels[0]);
    let chapters = chapters_from_links(&links, to_abs_url, Ghost(absolute()));
    Ok(chapters)
}

/// Chapter text as the site serves it, made into paragraphs: whole
/// `script`, `style`, `div` and `a` elements dropped, line-break tags made
/// line breaks, the other tags dropped, the site's two notices about its
/// address removed, the text trimmed, then each non-empty trimmed line
/// wrapped in `<p>`.
pub open spec fn cleaned_text(raw: Seq<char>) -> Seq<char> {
    let no_elements = rewrite_all(raw, 0, same_named_element(), seq![]);
    let broken = rewrite_all(no_elements, 0, line_break_ascii(), seq!['\n']);
    let untagged = rewrite_all(broken, 0, markup_tag(), seq![]);
    let no_notice = replace_seq(untagged, "笔趣阁最新域名："@, seq![]);
    let no_notices = replace_seq(no_notice, "，请牢记本域名并相互转告！"@, seq![]);
    paragraph_markup(trim_seq(no_notices))
}

/// A `script`, `style`, `div` or `a` element at the start of a chapter's raw
/// text, closed by a tag of its own name with no line break in between, is
/// dropped whole before anything else is read, whatever it holds (line-break
/// tags included): the rest is cleaned as if the element were not there.
pub proof fn leading_element_dropped_whole(x: Seq<char>, b: Seq<char>)
    requires
        same_named_element()(x + b, 0) == x.len(),
    ensures
        cleaned_text(x + b) == cleaned_text(b),
{
    let m = same_named_element();
    assert forall|q: int| 0 <= q < b.len() implies m(x + b, x.len() + q) == shifted(
        #[trigger] m(b, q),
        x.len() as int,
    ) by {
        lemma_element_after_prefix(x, b, q, ascii_word(), true);
    }
    lemma_rewrite_after_prefix(x, b, 0, m, seq![]);
    if x.len() == 0 {
        assert(x + b =~= b);
    } else {
        assert(rewrite_all(x + b, 0, m, seq![]) == Seq::<char>::empty() + rewrite_all(
            x + b,
            x.len() as int,
            m,
            seq![],
        ));
        assert(Seq::<char>::empty() + rewrite_all(b, 0, m, seq![]) =~= rewrite_all(b, 0, m, seq![]));
    }
}

/// The cleaned text of a chapter that opens with an element
/// `<name attributes>inner</name>` of one of the four names is the cleaned
/// text of what follows it, whatever `inner` holds, provided it holds no line
/// break and no closing tag (`</`), the attributes hold no `>`, and the name
/// ends where it should (the attributes start with no letter, digit or `_`).
pub proof fn leading_plain_element_dropped(n: int, attrs: Seq<char>, inner: Seq<char>, b: Seq<char>)
    requires
        0 <= n < 4,
        forall|p: int| 0 <= p < attrs.len() ==> attrs[p] != '>',
        attrs.len() > 0 ==> !ascii_word()(attrs[0]),
        forall|p: int| 0 <= p < inner.len() ==> inner[p] != '\n',
        forall|p: int| 0 <= p < inner.len() - 1 ==> !closing_mark_at(inner, p),
    ensures
        cleaned_text(plain_element(n, attrs, inner) + b) == cleaned_text(b),
{
    reveal_strlit(">");
    assert(!ascii_word()('>'));
    lemma_plain_element_matches(n, attrs, inner, b, ascii_word(), true);
    leading_element_dropped_whole(plain_element(n, attrs, inner), b);
}

/// No `<` in `t`: it holds no markup.
pub open spec fn no_markup(t: Seq<char>) -> bool {
    forall|p: int| 0 <= p < t.len() ==> #[trigger] t[p] != '<'
}

proof fn lemma_markup_steps_keep(t: Seq<char>)
    requires
        no_markup(t),
    ensures
        rewrite_all(t, 0, same_named_element(), seq![]) == t,
        rewrite_all(t, 0, line_break_ascii(), seq!['\n']) == t,
        rewrite_all(t, 0, markup_tag(), seq![]) == t,
{
    reveal_strlit("<br");
    assert forall|p: int| 0 <= p < t.len() implies !(p < #[trigger] same_named_element()(t, p)
        && same_named_element()(t, p) <= t.len()) by {
        assert(t[p] != '<');
    }
    lemma_rewrite_nothing(t, same_named_element(), seq![]);
    assert forall|p: int| 0 <= p < t.len() implies !(p < #[trigger] line_break_ascii()(t, p)
        && line_break_ascii()(t, p) <= t.len()) by {
        assert(t[p] != '<');
        if occurs_at(t, p, "<br"@) {
            assert(t.subrange(p, p + 3)[0] == t[p]);
        }
    }
    lemma_rewrite_nothing(t, line_break_ascii(), seq!['\n']);
    assert forall|p: int| 0 <= p < t.len() implies !(p < #[trigger] markup_tag()(t, p)
        && markup_tag()(t, p) <= t.len()) by {
        assert(t[p] != '<');
    }
    lemma_rewrite_nothing(t, markup_tag(), seq![]);
}

proof fn lemma_literal_absent(t: Seq<char>, n: Seq<char>)
    requires
        !contains_seq(t, n),
    ensures
        replace_seq(t, n, seq![]) == t,
{
    assert forall|p: int| 0 <= p < t.len() implies !(p < #[trigger] literal(n)(t, p) && literal(n)(
        t,
        p,
    ) <= t.len()) by {
        assert(!occurs_at(t, p, n));
    }
    lemma_rewrite_nothing(t, literal(n), seq![]);
}

proof fn lemma_no_markup_around(a: Seq<char>, n: Seq<char>, c: Seq<char>)
    requires
        no_markup(a),
        no_markup(n),
        no_markup(c),
    ensures
        no_markup(a + n + c),
{
    assert forall|p: int| 0 <= p < (a + n + c).len() implies #[trigger] (a + n + c)[p] != '<' by {
        if p < a.len() {
            assert((a + n + c)[p] == a[p]);
        } else if p < a.len() + n.len() {
            assert((a + n + c)[p] == n[p - a.len()]);
        } else {
            assert((a + n + c)[p] == c[p - a.len() - n.len()]);
        }
    }
}

/// Text with no markup and neither of the site's two notices is only made
/// into paragraphs.
pub proof fn plain_text_only_paragraphed(t: Seq<char>)
    requires
        no_markup(t),
        !contains_seq(t, "笔趣阁最新域名："@),
        !contains_seq(t, "，请牢记本域名并相互转告！"@),
    ensures
        cleaned_text(t) == paragraph_markup(trim_seq(t)),
{
    lemma_markup_steps_keep(t);
    lemma_literal_absent(t, "笔趣阁最新域名："@);
    lemma_literal_absent(t, "，请牢记本域名并相互转告！"@);
}

/// The site's notice of its address (`笔趣阁最新域名：`) is cut out of the
/// text where it stands, and the rest made into paragraphs.
pub proof fn address_notice_cut(a: Seq<char>, c: Seq<char>)
    requires
        no_markup(a),
        no_markup(c),
        forall|q: int|
            0 <= q < (a + "笔趣阁最新域名："@ + c).len() && q != a.len() ==> !occurs_at(
                a + "笔趣阁最新域名："@ + c,
                q,
                "笔趣阁最新域名："@,
            ),
        !contains_seq(a + c, "，请牢记本域名并相互转告！"@),
    ensures
        cleaned_text(a + "笔趣阁最新域名："@ + c) == paragraph_markup(trim_seq(a + c)),
{
    let n = "笔趣阁最新域名："@;
    reveal_strlit("笔趣阁最新域名：");
    assert(no_markup(n));
    lemma_no_markup_around(a, n, c);
    lemma_markup_steps_keep(a + n + c);
    lemma_replace_once(a, n, c, seq![]);
    assert(a + Seq::<char>::empty() + c =~= a + c);
    lemma_literal_absent(a + c, "，请牢记本域名并相互转告！"@);
}

/// The site's reminder to remember its address (`，请牢记本域名并相互转告！`)
/// is cut out of the text where it stands, and the rest made into
/// paragraphs.
pub proof fn address_reminder_cut(a: Seq<char>, c: Seq<char>)
    requires
        no_markup(a),
        no_markup(c),
        !contains_seq(a + "，请牢记本域名并相互转告！"@ + c, "笔趣阁最新域名："@),
        forall|q: int|
            0 <= q < (a + "，请牢记本域名并相互转告！"@ + c).len() && q != a.len() ==> !occurs_at(
                a + "，请牢记本域名并相互转告！"@ + c,
                q,
                "，请牢记本域名并相互转告！"@,
            ),
    ensures
        cleaned_text(a + "，请牢记本域名并相互转告！"@ + c) == paragraph_markup(trim_seq(a + c)),
{
    let n = "，请牢记本域名并相互转告！"@;
    reveal_strlit("，请牢记本域名并相互转告！");
    assert(no_markup(n));
    lemma_no_markup_around(a, n, c);
    lemma_markup_steps_keep(a + n + c);
    lemma_literal_absent(a + n + c, "笔趣阁最新域名："@);
    lemma_replace_once(a, n, c, seq![]);
    assert(a + Seq::<char>::empty() + c =~= a + c);
}

/// The paragraphs of a chapter's raw HTML text.
pub fn chapter_text(raw: &str) -> (text: String)
    ensures
        text@ == cleaned_text(raw@),
{
    let s = chars_of(raw);
    let empty: Vec<char> = Vec::new();
    assert(empty@ =~= Seq::<char>::empty());
    let mut newline: Vec<char> = Vec::new();
    newline.push('\n');
    assert(newline@ =~= seq!['\n']);
    let a = replace_matches(&s, &empty, match_same_named_element, Ghost(same_named_element()));
    let b = replace_matches(&a, &newline, match_line_break_ascii, Ghost(line_break_ascii()));
    let c = replace_matches(&b, &empty, match_markup_tag, Ghost(markup_tag()));
    let notice = chars_of("笔趣阁最新域名：");
    let reminder = chars_of("，请牢记本域名并相互转告！");
    proof {
        reveal_strlit("笔趣阁最新域名：");
        reveal_strlit("，请牢记本域名并相互转告！");
    }
    let d = replace_literal(&c, &notice, &empty);
    let e = replace_literal(&d, &reminder, &empty);
    string_of(&paragraph_text(&trim(&e)))
}

/// An optional text, trimmed; empty when there is none.
pub open spec fn trimmed_or_empty(o: Option<Seq<char>>) -> Seq<char> {
    match o {
        Some(t) => trim_seq(t),
        None => seq![],
    }
}

/// An optional text; empty when there is none.
pub open spec fn text_or_empty(o: Option<Seq<char>>) -> Seq<char> {
    match o {
        Some(t) => t,
        None => seq![],
    }
}

/// A chapter from the text of its `.title` element and the inner HTML of its
/// `#chaptercontent` element, each absent when the page lacks it.
pub fn chapter_content(title: Option<String>, raw: Option<String>) -> (c: ChapterContent)
    ensures
        c.title@ == trimmed_or_empty(opt_view(title)),
        c.content@ == cleaned_text(text_or_empty(opt_view(raw))),
{
    let t = match &title {
        Some(t) => string_of(&trim(&chars_of(t.as_str()))),
        None => String::new(),
    };
    let content = match &raw {
        Some(r) => chapter_text(r.as_str()),
        None => {
            let e = String::new();
            chapter_text(e.as_str())
        },
    };
    ChapterContent { title: t, content }
}

/// The selectors a chapter page is read with, in the order they are parsed.
pub open spec fn chapter_selectors() -> Seq<&'static str> {
    seq![".title", "#chaptercontent"]
}

/// The chapter on a chapter page (GBK bytes): the trimmed text of its first
/// `.title` element and the paragraphs of the inner HTML of its first
/// `#chaptercontent` element. Fails, with the selector parser's message,
/// exactly when a selector is refused.
pub fn content_page(page: &[u8]) -> (r: Result<ChapterContent, String>)
    ensures
        r is Ok == (first_refused(chapter_selectors(), 0) == -1),
        r matches Err(e) ==> e@ == selector_error(
            chapter_selectors()[first_refused(chapter_selectors(), 0)]@,
        ),
        r matches Ok(c) ==> c.title@ == trimmed_or_empty(
            first_text_at(gbk_decoded(page@), seq![], ".title"@),
        ) && c.content@ == cleaned_text(
            text_or_empty(first_inner_html_at(gbk_decoded(page@), seq![], "#chaptercontent"@)),
        ),
{
    let css = vec![".title", "#chaptercontent"];
    assert(css@ =~= chapter_selectors());
    let sels = match parse_selectors(&css) {
        Ok(s) => s,
        Err(e) => {
            return Err(e);
        },
    };
    let text = decode_gbk(page);
    let doc = parse_document(text.as_str());
    let title = first_text_in_document(&doc, &sels[0]);
    let raw = first_inner_html_in_document(&doc, &sels[1]);
    Ok(chapter_content(title, raw))
}

} // verus!
