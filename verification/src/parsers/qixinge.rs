//! The qixinge source: UTF-8 pages of a desktop site, read with CSS selectors.

use vstd::prelude::*;
use vstd::utf8::encode_utf8;
use crate::codec::{percent_encoded, url_encode};
use crate::dom::{
    attr_at, attribute, count_in_element, match_count, nth_in_element, parse_document,
    nth_in_document, count_in_document, selector_error, text_at, text_of, Element, Sel,
};
use crate::pages::{
    chapters_from_links, chapters_of, first_inner_html_at, first_inner_html_in_document,
    first_refused, first_text_at, first_text_in, first_text_in_document, href_of, link_at,
    link_of, link_view, page_link_records, page_links, parse_selectors, Link, LinkView,
};
use crate::classes::{newline, single, unicode_word, unicode_word_char};
use crate::scan::lemma_scan_last_at_end;
use crate::patterns::{
    closing_mark_at, lemma_element_after_prefix, lemma_plain_element_matches, plain_element,
    any_named_element, blank_run, book_suffix, bracket_prefix, colon, line_break_unicode,
    markup_tag, match_any_named_element, match_blank_run, match_book_suffix, match_bracket_prefix,
    match_colon, match_line_break_unicode, match_markup_tag, match_page_marker,
    match_unfinished_notice, page_marker, unfinished_notice,
};
use crate::text::{
    chars_of, is_white_space, lemma_leftmost_is, lemma_leftmost_none, lemma_rewrite_after_prefix,
    lemma_trim_idempotent, match_starts, occurs_at, paragraph_markup, paragraph_text, push_all,
    replace_first_match, replace_literal, replace_matches, replace_seq, rewrite_all, rewrite_first,
    shifted, starts_at, string_of, trim, trim_end_seq, trim_seq, trim_start_seq,
};
use crate::types::{opt_view, Book, Chapter, ChapterContent};

verus! {

/// The site's address.
pub open spec fn base() -> Seq<char> {
    "http://www.qixinge.net"@
}

/// The absolute URL of a link on the site: empty stays empty, a URL that
/// starts with `http` stays as it is, a path from the root gets the site's
/// address in front, any other path the address and `/`.
pub open spec fn absolute_url(path: Seq<char>) -> Seq<char> {
    if path.len() == 0 {
        seq![]
    } else if occurs_at(path, 0, "http"@) {
        path
    } else if path[0] == '/' {
        base() + path
    } else {
        base() + seq!['/'] + path
    }
}

pub open spec fn absolute() -> spec_fn(Seq<char>) -> Seq<char> {
    |p: Seq<char>| absolute_url(p)
}

/// The absolute URL of a link on the site.
pub fn to_abs_url(path: &str) -> (url: String)
    ensures
        url@ == absolute_url(path@),
{
    let p = chars_of(path);
    if p.len() == 0 {
        return String::new();
    }
    let http = chars_of("http");
    if starts_at(&p, 0, &http) {
        return path.to_string();
    }
    let mut out = chars_of("http://www.qixinge.net");
    if p[0] != '/' {
        out.push('/');
    }
    push_all(&mut out, &p);
    string_of(&out)
}

/// An absolute URL stays as it is: making a URL absolute twice is making it
/// absolute once.
pub proof fn absolute_url_idempotent(path: Seq<char>)
    ensures
        absolute_url(absolute_url(path)) == absolute_url(path),
{
    let u = absolute_url(path);
    if path.len() > 0 && !occurs_at(path, 0, "http"@) {
        reveal_strlit("http");
        reveal_strlit("http://www.qixinge.net");
        assert(u.subrange(0, 4) =~= "http"@);
    }
}

/// The `Referer` the site's pages are asked for with.
pub fn referer() -> (r: String)
    ensures
        r@ == base() + seq!['/'],
{
    let mut out = chars_of("http://www.qixinge.net");
    out.push('/');
    string_of(&out)
}

/// The search address for a keyword: the keyword percent-encoded as the
/// `q` parameter, page 1.
pub open spec fn search_address(keyword: Seq<char>) -> Seq<char> {
    base() + "/search.php?q="@ + percent_encoded(encode_utf8(keyword)) + "&p=1"@
}

pub fn search_url(keyword: &str) -> (url: String)
    ensures
        url@ == search_address(keyword@),
{
    let mut out = chars_of("http://www.qixinge.net");
    push_all(&mut out, &chars_of("/search.php?q="));
    let encoded = url_encode(keyword);
    push_all(&mut out, &chars_of(encoded.as_str()));
    push_all(&mut out, &chars_of("&p=1"));
    string_of(&out)
}

/// What a search hit (a `.col-md-6 dl` element) holds: the `src` of its first
/// `dt img` element, its first `h3 a` link, and of its `.book_other`
/// elements the text of the first `span` in the first one, the text of the
/// second one, and the text of the first `a` in the fourth one.
pub struct SearchHit {
    pub cover_src: Option<String>,
    pub name_link: Option<Link>,
    pub author_span: Option<String>,
    pub kind_text: Option<String>,
    pub last_chapter_link: Option<String>,
}

/// What a search hit holds, as text.
pub struct SearchHitView {
    pub cover_src: Option<Seq<char>>,
    pub name_link: Option<LinkView>,
    pub author_span: Option<Seq<char>>,
    pub kind_text: Option<Seq<char>>,
    pub last_chapter_link: Option<Seq<char>>,
}

pub open spec fn hit_view(h: SearchHit) -> SearchHitView {
    SearchHitView {
        cover_src: opt_view(h.cover_src),
        name_link: match h.name_link {
            Some(l) => Some(link_view(l)),
            None => None,
        },
        author_span: opt_view(h.author_span),
        kind_text: opt_view(h.kind_text),
        last_chapter_link: opt_view(h.last_chapter_link),
    }
}

pub open spec fn hit_views(hits: Seq<SearchHit>) -> Seq<SearchHitView> {
    hits.map_values(|h: SearchHit| hit_view(h))
}

/// What the `.col-md-6 dl` element that `dl` reaches holds.
pub open spec fn hit_at(page: Seq<char>, dl: Seq<(Seq<char>, int)>) -> SearchHitView {
    let others = match_count(page, dl, ".book_other"@);
    SearchHitView {
        cover_src: if match_count(page, dl, "dt img"@) > 0 {
            attr_at(page, dl.push(("dt img"@, 0)), "src"@)
        } else {
            None
        },
        name_link: if match_count(page, dl, "h3 a"@) > 0 {
            Some(link_at(page, dl.push(("h3 a"@, 0))))
        } else {
            None
        },
        author_span: if others > 0 {
            first_text_at(page, dl.push((".book_other"@, 0)), "span"@)
        } else {
            None
        },
        kind_text: if others > 1 {
            Some(text_at(page, dl.push((".book_other"@, 1))))
        } else {
            None
        },
        last_chapter_link: if others > 3 {
            first_text_at(page, dl.push((".book_other"@, 3)), "a"@)
        } else {
            None
        },
    }
}

/// The search hits of a result page: one for each `.col-md-6 dl` element,
/// in order.
pub open spec fn page_hits(page: Seq<char>) -> Seq<SearchHitView> {
    Seq::new(
        match_count(page, seq![], ".col-md-6 dl"@) as nat,
        |k: int| hit_at(page, seq![(".col-md-6 dl"@, k)]),
    )
}

/// A book name as the site writes it: `免费阅读小说` removed, trimmed, a
/// leading `[...]` category removed, trimmed again.
pub open spec fn hit_name(text: Seq<char>) -> Seq<char> {
    trim_seq(rewrite_first(trim_seq(replace_seq(text, "免费阅读小说"@, seq![])), bracket_prefix(), seq![]))
}

/// A kind as the site writes it: trimmed, its first colon removed.
pub open spec fn hit_kind(text: Seq<char>) -> Seq<char> {
    rewrite_first(trim_seq(text), colon(), seq![])
}

/// A hit gives a book when it has a name link with a non-empty name and a
/// non-empty `href`.
pub open spec fn gives_book(h: SearchHitView) -> bool {
    h.name_link matches Some(l) && hit_name(l.text).len() > 0 && href_of(l.href).len() > 0
}

/// `r` is the trimmed text of `o`, absent when `o` is.
pub open spec fn trimmed_opt(o: Option<Seq<char>>, r: Option<String>) -> bool {
    match (o, r) {
        (Some(a), Some(b)) => b@ == trim_seq(a),
        (None, None) => true,
        _ => false,
    }
}

/// `b` is the book of hit `h`.
pub open spec fn book_of(h: SearchHitView, b: Book) -> bool {
    let l = h.name_link->0;
    &&& b.title@ == hit_name(l.text)
    &&& b.book_id@ == absolute_url(href_of(l.href))
    &&& match (h.cover_src, b.cover) {
        (Some(s), Some(c)) => c@ == absolute_url(s),
        (None, None) => true,
        _ => false,
    }
    &&& trimmed_opt(h.author_span, b.author)
    &&& match b.kind {
        Some(k) => h.kind_text matches Some(t) && k@ == hit_kind(t) && k@.len() > 0,
        None => h.kind_text matches Some(t) ==> hit_kind(t).len() == 0,
    }
    &&& trimmed_opt(h.last_chapter_link, b.last_chapter)
    &&& b.source_key@ == "qixinge"@
    &&& b.source@ == "qixinge"@
    &&& b.tab@ == Seq::<char>::empty()
    &&& b.intro is None
    &&& b.word_count is None
}

/// The hits that give books, in order.
pub open spec fn book_hits(hits: Seq<SearchHitView>) -> Seq<SearchHitView>
    decreases hits.len(),
{
    if hits.len() == 0 {
        seq![]
    } else {
        book_hits(hits.drop_last()) + (if gives_book(hits.last()) {
            seq![hits.last()]
        } else {
            seq![]
        })
    }
}

/// `books` are the books of the hits that give one, in order.
pub open spec fn books_of(hits: Seq<SearchHitView>, books: Seq<Book>) -> bool {
    let given = book_hits(hits);
    books.len() == given.len() && forall|k: int|
        0 <= k < given.len() ==> book_of(given[k], #[trigger] books[k])
}

proof fn lemma_book_hits(hits: Seq<SearchHitView>)
    ensures
        book_hits(hits).len() <= hits.len(),
        forall|k: int| 0 <= k < book_hits(hits).len() ==> gives_book(#[trigger] book_hits(hits)[k]),
    decreases hits.len(),
{
    if hits.len() > 0 {
        lemma_book_hits(hits.drop_last());
        let prev = book_hits(hits.drop_last());
        assert forall|k: int| 0 <= k < book_hits(hits).len() implies gives_book(
            #[trigger] book_hits(hits)[k],
        ) by {
            if k < prev.len() {
                assert(book_hits(hits)[k] == prev[k]);
            }
        }
    }
}

/// A link with an address keeps one: the absolute URL of a non-empty path
/// is not empty.
pub proof fn absolute_url_not_empty(path: Seq<char>)
    requires
        path.len() > 0,
    ensures
        absolute_url(path).len() > 0,
{
    reveal_strlit("http://www.qixinge.net");
}

/// A search gives no more books than hits, and every book it gives has a
/// title that is not empty and has no white space at its ends, and an
/// address on the site that is not empty.
pub proof fn found_books_are_named(hits: Seq<SearchHitView>, books: Seq<Book>)
    requires
        books_of(hits, books),
    ensures
        books.len() <= hits.len(),
        forall|k: int|
            0 <= k < books.len() ==> #[trigger] books[k].title@.len() > 0 && trim_seq(
                books[k].title@,
            ) == books[k].title@ && books[k].book_id@.len() > 0,
{
    lemma_book_hits(hits);
    let given = book_hits(hits);
    assert forall|k: int| 0 <= k < books.len() implies #[trigger] books[k].title@.len() > 0
        && trim_seq(books[k].title@) == books[k].title@ && books[k].book_id@.len() > 0 by {
        let h = given[k];
        assert(gives_book(h));
        assert(book_of(h, books[k]));
        let l = h.name_link->0;
        lemma_trim_idempotent(
            rewrite_first(trim_seq(replace_seq(l.text, "免费阅读小说"@, seq![])), bracket_prefix(), seq![]),
        );
        absolute_url_not_empty(href_of(l.href));
    }
}

fn trimmed(o: &Option<String>) -> (r: Option<String>)
    ensures
        trimmed_opt(opt_view(*o), r),
{
    match o {
        Some(t) => Some(string_of(&trim(&chars_of(t.as_str())))),
        None => None,
    }
}

/// A book name as the site lists it, cleaned.
pub fn listed_name(text: &str) -> (name: String)
    ensures
        name@ == hit_name(text@),
{
    string_of(&name_of(text))
}

fn name_of(text: &str) -> (name: Vec<char>)
    ensures
        name@ == hit_name(text@),
{
    let empty: Vec<char> = Vec::new();
    assert(empty@ =~= Seq::<char>::empty());
    let free = chars_of("免费阅读小说");
    proof {
        reveal_strlit("免费阅读小说");
    }
    let a = replace_literal(&chars_of(text), &free, &empty);
    let b = trim(&a);
    let c = replace_first_match(&b, &empty, match_bracket_prefix, Ghost(bracket_prefix()));
    trim(&c)
}

fn kind_of(text: &Option<String>) -> (kind: Option<String>)
    ensures
        match kind {
            Some(k) => opt_view(*text) matches Some(t) && k@ == hit_kind(t) && k@.len() > 0,
            None => opt_view(*text) matches Some(t) ==> hit_kind(t).len() == 0,
        },
{
    match text {
        Some(t) => {
            let empty: Vec<char> = Vec::new();
            assert(empty@ =~= Seq::<char>::empty());
            let k = replace_first_match(&trim(&chars_of(t.as_str())), &empty, match_colon, Ghost(colon()));
            if k.len() > 0 {
                Some(string_of(&k))
            } else {
                None
            }
        },
        None => None,
    }
}

/// The books of the search hits that have a name link with a non-empty
/// name and `href`.
pub fn books_from_hits(hits: &Vec<SearchHit>) -> (books: Vec<Book>)
    ensures
        books_of(hit_views(hits@), books@),
{
    let mut books: Vec<Book> = Vec::new();
    let mut i: usize = 0;
    while i < hits.len()
        invariant
            i <= hits.len(),
            books_of(hit_views(hits@.take(i as int)), books@),
        decreases hits.len() - i,
    {
        let ghost before = books@;
        let ghost hv = hit_views(hits@.take(i + 1));
        assert(hv.drop_last() =~= hit_views(hits@.take(i as int)));
        assert(hv.last() == hit_view(hits@[i as int]));
        let h = &hits[i];
        match &h.name_link {
            Some(l) => {
                let href = match &l.href {
                    Some(x) => x.as_str(),
                    None => "",
                };
                proof {
                    reveal_strlit("");
                }
                assert(href@ == href_of(opt_view(l.href)));
                let name = name_of(l.text.as_str());
                if name.len() > 0 && !href.is_empty() {
                    let cover = match &h.cover_src {
                        Some(s) => Some(to_abs_url(s.as_str())),
                        None => None,
                    };
                    let book = Book {
                        title: string_of(&name),
                        author: trimmed(&h.author_span),
                        cover,
                        kind: kind_of(&h.kind_text),
                        last_chapter: trimmed(&h.last_chapter_link),
                        book_id: to_abs_url(href),
                        source_key: "qixinge".to_string(),
                        source: "qixinge".to_string(),
                        tab: String::new(),
                        intro: None,
                        word_count: None,
                    };
                    assert(book_of(hit_view(*h), book));
                    books.push(book);
                } else {
                    assert(!gives_book(hit_view(hits@[i as int])));
                }
            },
            None => {
                assert(!gives_book(hit_view(hits@[i as int])));
            },
        }
        i = i + 1;
        assert(books_of(hit_views(hits@.take(i as int)), books@)) by {
            let given = book_hits(hv);
            let prev = book_hits(hit_views(hits@.take(i - 1)));
            assert forall|k: int| 0 <= k < given.len() implies book_of(
                given[k],
                #[trigger] books@[k],
            ) by {
                if k < prev.len() {
                    assert(given[k] == prev[k]);
                    assert(books@[k] == before[k]);
                }
            }
        }
    }
    assert(hits@.take(hits.len() as int) =~= hits@);
    books
}

/// The selectors a search page is read with, in the order they are parsed.
pub open spec fn search_selectors() -> Seq<&'static str> {
    seq![".col-md-6 dl", "dt img", "h3 a", ".book_other", "span", "a"]
}

/// The search hit that the `.col-md-6 dl` element `dl` holds, read with the
/// selectors `sels` of `search_selectors`.
fn hit_in(dl: &Element, sels: &Vec<Sel>) -> (h: SearchHit)
    requires
        sels@.len() == 6,
        sels@[1].css() == "dt img"@,
        sels@[2].css() == "h3 a"@,
        sels@[3].css() == ".book_other"@,
        sels@[4].css() == "span"@,
        sels@[5].css() == "a"@,
    ensures
        hit_view(h) == hit_at(dl.page(), dl.path()),
{
    let cover_src = if count_in_element(dl, &sels[1]) > 0 {
        attribute(&nth_in_element(dl, &sels[1], 0), "src")
    } else {
        None
    };
    let name_link = if count_in_element(dl, &sels[2]) > 0 {
        Some(link_of(&nth_in_element(dl, &sels[2], 0)))
    } else {
        None
    };
    let others = count_in_element(dl, &sels[3]);
    let author_span = if others > 0 {
        first_text_in(&nth_in_element(dl, &sels[3], 0), &sels[4])
    } else {
        None
    };
    let kind_text = if others > 1 {
        Some(text_of(&nth_in_element(dl, &sels[3], 1)))
    } else {
        None
    };
    let last_chapter_link = if others > 3 {
        first_text_in(&nth_in_element(dl, &sels[3], 3), &sels[5])
    } else {
        None
    };
    SearchHit { cover_src, name_link, author_span, kind_text, last_chapter_link }
}

/// The books on a search result page: for each `.col-md-6 dl` element, in
/// order, its cover, name link, author, kind and last chapter, kept when
/// the name and the link's `href` are non-empty. Fails, with the selector
/// parser's message, exactly when a selector is refused.
pub fn search_results(page: &str) -> (r: Result<Vec<Book>, String>)
    ensures
        r is Ok == (first_refused(search_selectors(), 0) == -1),
        r matches Err(e) ==> e@ == selector_error(
            search_selectors()[first_refused(search_selectors(), 0)]@,
        ),
        r matches Ok(books) ==> books_of(page_hits(page@), books@),
{
    let css = vec![".col-md-6 dl", "dt img", "h3 a", ".book_other", "span", "a"];
    assert(css@ =~= search_selectors());
    let sels = match parse_selectors(&css) {
        Ok(s) => s,
        Err(e) => {
            return Err(e);
        },
    };
    assert(sels@[0].css() == ".col-md-6 dl"@ && sels@[1].css() == "dt img"@ && sels@[2].css()
        == "h3 a"@ && sels@[3].css() == ".book_other"@ && sels@[4].css() == "span"@
        && sels@[5].css() == "a"@);
    let doc = parse_document(page);
    let n = count_in_document(&doc, &sels[0]);
    let mut hits: Vec<SearchHit> = Vec::new();
    let mut i: usize = 0;
    while i < n
        invariant
            sels@.len() == 6,
            sels@[0].css() == ".col-md-6 dl"@,
            sels@[1].css() == "dt img"@,
            sels@[2].css() == "h3 a"@,
            sels@[3].css() == ".book_other"@,
            sels@[4].css() == "span"@,
            sels@[5].css() == "a"@,
            doc.source() == page@,
            i <= n,
            n == match_count(page@, seq![], ".col-md-6 dl"@),
            hits@.len() == i,
            forall|k: int|
                0 <= k < i ==> #[trigger] hit_view(hits@[k]) == hit_at(
                    page@,
                    seq![(".col-md-6 dl"@, k)],
                ),
        decreases n - i,
    {
        let h = hit_in(&nth_in_document(&doc, &sels[0], i), &sels);
        hits.push(h);
        i = i + 1;
    }
    let books = books_from_hits(&hits);
    assert(hit_views(hits@) =~= page_hits(page@));
    Ok(books)
}

/// The links of a book's table of contents.
pub open spec fn contents_selectors() -> Seq<&'static str> {
    seq![".book_list2 li a"]
}

/// The chapters of a book page: each `.book_list2 li a` link, in order, with
/// a non-empty `href` and a non-empty trimmed text, as that text and the
/// link's absolute URL. Fails, with the selector parser's message, exactly
/// when the selector is refused.
pub fn chapters_page(page: &str) -> (r: Result<Vec<Chapter>, String>)
    ensures
        r is Ok == (first_refused(contents_selectors(), 0) == -1),
        r matches Err(e) ==> e@ == selector_error(
            contents_selectors()[first_refused(contents_selectors(), 0)]@,
        ),
        r matches Ok(chapters) ==> chapters_of(
            page_links(page@, ".book_list2 li a"@),
            chapters@,
            absolute(),
        ),
{
    let css = vec![".book_list2 li a"];
    assert(css@ =~= contents_selectors());
    let sels = match parse_selectors(&css) {
        Ok(s) => s,
        Err(e) => {
            return Err(e);
        },
    };
    let doc = parse_document(page);
    let links = page_link_records(&doc, &sels[0]);
    let chapters = chapters_from_links(&links, to_abs_url, Ghost(absolute()));
    Ok(chapters)
}

/// A chapter title as the site writes it: trimmed, the `-《book》` suffix
/// removed, trimmed again.
pub open spec fn cleaned_title(text: Seq<char>) -> Seq<char> {
    trim_seq(rewrite_first(trim_seq(text), book_suffix(), seq![]))
}

/// Chapter text as the site serves it, made into paragraphs: whole
/// `script`, `style`, `div` and `a` elements dropped, line-break tags made
/// line breaks, the other tags dropped, "chapter continues" notices and page
/// markers removed, runs of three or more line breaks made two, the text
/// trimmed, then each non-empty trimmed line wrapped in `<p>`.
pub open spec fn cleaned_text(raw: Seq<char>) -> Seq<char> {
    let no_elements = rewrite_all(raw, 0, any_named_element(), seq![]);
    let broken = rewrite_all(no_elements, 0, line_break_unicode(), seq!['\n']);
    let untagged = rewrite_all(broken, 0, markup_tag(), seq![]);
    let no_notice = rewrite_all(untagged, 0, unfinished_notice(), seq![]);
    let no_markers = rewrite_all(no_notice, 0, page_marker(), seq![]);
    let closed_up = rewrite_all(no_markers, 0, blank_run(), seq!['\n', '\n']);
    paragraph_markup(trim_seq(closed_up))
}

/// A `script`, `style`, `div` or `a` element at the start of a chapter's raw
/// text, closed by a tag of any of those names with no line break in
/// between, is dropped whole before anything else is read, whatever it
/// holds (line-break tags included): the rest is cleaned as if the element
/// were not there.
pub proof fn leading_element_dropped_whole(x: Seq<char>, b: Seq<char>)
    requires
        any_named_element()(x + b, 0) == x.len(),
    ensures
        cleaned_text(x + b) == cleaned_text(b),
{
    let m = any_named_element();
    assert forall|q: int| 0 <= q < b.len() implies m(x + b, x.len() + q) == shifted(
        #[trigger] m(b, q),
        x.len() as int,
    ) by {
        lemma_element_after_prefix(x, b, q, unicode_word(), false);
    }
    lemma_rewrite_after_prefix(x, b, 0, m, seq![]);
    if x.len() == 0 {
        assert(x + b =~= b);
    } else {
        assert(rewrite_all(x + b, 0, m, seq![]) == Seq::<char>::empty() + rewrite_all(
            x + b,
            x.len() as int,
            m,
            seq![],
        ));
        assert(Seq::<char>::empty() + rewrite_all(b, 0, m, seq![]) =~= rewrite_all(b, 0, m, seq![]));
    }
}

/// The cleaned text of a chapter that opens with an element
/// `<name attributes>inner</name>` of one of the four names is the cleaned
/// text of what follows it, whatever `inner` holds, provided it holds no line
/// break and no closing tag (`</`), the attributes hold no `>`, and the name
/// ends at a word boundary (the character after it is no Unicode word
/// character).
pub proof fn leading_plain_element_dropped(n: int, attrs: Seq<char>, inner: Seq<char>, b: Seq<char>)
    requires
        0 <= n < 4,
        forall|p: int| 0 <= p < attrs.len() ==> attrs[p] != '>',
        attrs.len() > 0 ==> !unicode_word_char(attrs[0]),
        attrs.len() == 0 ==> !unicode_word_char('>'),
        forall|p: int| 0 <= p < inner.len() ==> inner[p] != '\n',
        forall|p: int| 0 <= p < inner.len() - 1 ==> !closing_mark_at(inner, p),
    ensures
        cleaned_text(plain_element(n, attrs, inner) + b) == cleaned_text(b),
{
    lemma_plain_element_matches(n, attrs, inner, b, unicode_word(), false);
    leading_element_dropped_whole(plain_element(n, attrs, inner), b);
}

/// A chapter title written `title-《book》` on one line loses the book part:
/// from the first `-《` through the last `》`, whatever lies between; what
/// remains is trimmed.
pub proof fn cleaned_title_cuts_book(t: Seq<char>, x: Seq<char>)
    requires
        t.len() > 0 ==> !is_white_space(t[0]),
        forall|p: int| 0 <= p < t.len() ==> !occurs_at(t, p, "-《"@),
        forall|p: int| 0 <= p < x.len() ==> #[trigger] x[p] != '\n',
    ensures
        cleaned_title(t + "-《"@ + x + "》"@) == trim_seq(t),
{
    reveal_strlit("-《");
    reveal_strlit("》");
    let s = t + "-《"@ + x + "》"@;
    let k = t.len() as int;
    assert(s[0] == if k > 0 { t[0] } else { '-' });
    assert(s.last() == '》');
    assert(trim_start_seq(s) == s);
    assert(trim_end_seq(s) == s);
    assert forall|p: int| 0 <= p < k implies !#[trigger] match_starts(book_suffix(), s, p) by {
        if occurs_at(s, p, "-《"@) {
            if p + 2 <= k {
                assert(t.subrange(p, p + 2) =~= s.subrange(p, p + 2));
                assert(occurs_at(t, p, "-《"@));
            } else {
                assert(s[p + 1] == s.subrange(p, p + 2)[1]);
                assert(s[k] == '-');
            }
        }
    }
    assert(s.subrange(k, k + 2) =~= "-《"@);
    assert forall|p: int| k + 2 <= p < s.len() implies !newline()(#[trigger] s[p]) by {
        if p < s.len() - 1 {
            assert(s[p] == x[p - k - 2]);
        }
    }
    lemma_scan_last_at_end(s, k + 2, newline(), single('》'), -1);
    assert(book_suffix()(s, k) == s.len());
    lemma_leftmost_is(book_suffix(), s, 0, k);
    assert(rewrite_first(s, book_suffix(), seq![]) =~= t);
}

/// A kind loses the first colon of its trimmed text (`:` or `：`), and only
/// that one; a kind with no colon is only trimmed.
pub proof fn hit_kind_drops_first_colon(text: Seq<char>, a: Seq<char>, col: char, c: Seq<char>)
    requires
        forall|p: int| 0 <= p < a.len() ==> #[trigger] a[p] != ':' && a[p] != '：',
    ensures
        (col == ':' || col == '：') && trim_seq(text) == a + seq![col] + c ==> hit_kind(text) == a
            + c,
        trim_seq(text) == a ==> hit_kind(text) == a,
{
    let t = trim_seq(text);
    let k = a.len() as int;
    if trim_seq(text) == a {
        assert forall|j: int| 0 <= j < t.len() implies !#[trigger] match_starts(colon(), t, j) by {
            assert(t[j] == a[j]);
        }
        lemma_leftmost_none(colon(), t, 0);
    } else if (col == ':' || col == '：') && t == a + seq![col] + c {
        assert forall|j: int| 0 <= j < k implies !#[trigger] match_starts(colon(), t, j) by {
            assert(t[j] == a[j]);
        }
        assert(t[k] == col);
        lemma_leftmost_is(colon(), t, 0, k);
        assert(rewrite_first(t, colon(), seq![]) =~= a + c);
    }
}

/// The title of a chapter page.
pub fn chapter_title(text: &str) -> (title: String)
    ensures
        title@ == cleaned_title(text@),
{
    let empty: Vec<char> = Vec::new();
    assert(empty@ =~= Seq::<char>::empty());
    let t = trim(&chars_of(text));
    let u = replace_first_match(&t, &empty, match_book_suffix, Ghost(book_suffix()));
    string_of(&trim(&u))
}

/// The paragraphs of a chapter's raw HTML text.
pub fn chapter_text(raw: &str) -> (text: String)
    ensures
        text@ == cleaned_text(raw@),
{
    let s = chars_of(raw);
    let empty: Vec<char> = Vec::new();
    assert(empty@ =~= Seq::<char>::empty());
    let mut newline: Vec<char> = Vec::new();
    newline.push('\n');
    assert(newline@ =~= seq!['\n']);
    let mut two_newlines: Vec<char> = Vec::new();
    two_newlines.push('\n');
    two_newlines.push('\n');
    assert(two_newlines@ =~= seq!['\n', '\n']);
    let a = replace_matches(&s, &empty, match_any_named_element, Ghost(any_named_element()));
    let b = replace_matches(&a, &newline, match_line_break_unicode, Ghost(line_break_unicode()));
    let c = replace_matches(&b, &empty, match_markup_tag, Ghost(markup_tag()));
    let d = replace_matches(&c, &empty, match_unfinished_notice, Ghost(unfinished_notice()));
    let e = replace_matches(&d, &empty, match_page_marker, Ghost(page_marker()));
    let f = replace_matches(&e, &two_newlines, match_blank_run, Ghost(blank_run()));
    string_of(&paragraph_text(&trim(&f)))
}

/// An optional text; empty when there is none.
pub open spec fn text_or_empty(o: Option<Seq<char>>) -> Seq<char> {
    match o {
        Some(t) => t,
        None => seq![],
    }
}

/// A chapter from the text of its `h1` element and the inner HTML of its
/// `article.font_max` element, each absent when the page lacks it.
pub fn chapter_content(title: Option<String>, raw: Option<String>) -> (c: ChapterContent)
    ensures
        c.title@ == cleaned_title(text_or_empty(opt_view(title))),
        c.content@ == cleaned_text(text_or_empty(opt_view(raw))),
{
    let t = match &title {
        Some(t) => chapter_title(t.as_str()),
        None => {
            let e = String::new();
            chapter_title(e.as_str())
        },
    };
    let content = match &raw {
        Some(r) => chapter_text(r.as_str()),
        None => {
            let e = String::new();
            chapter_text(e.as_str())
        },
    };
    ChapterContent { title: t, content }
}

/// The selectors a chapter page is read with, in the order they are parsed.
pub open spec fn chapter_selectors() -> Seq<&'static str> {
    seq!["h1", "article.font_max"]
}

/// The chapter on a chapter page: the cleaned text of its first `h1`
/// element and the paragraphs of the inner HTML of its first
/// `article.font_max` element. Fails, with the selector parser's message,
/// exactly when a selector is refused.
pub fn content_page(page: &str) -> (r: Result<ChapterContent, String>)
    ensures
        r is Ok == (first_refused(chapter_selectors(), 0) == -1),
        r matches Err(e) ==> e@ == selector_error(
            chapter_selectors()[first_refused(chapter_selectors(), 0)]@,
        ),
        r matches Ok(c) ==> c.title@ == cleaned_title(
            text_or_empty(first_text_at(page@, seq![], "h1"@)),
        ) && c.content@ == cleaned_text(
            text_or_empty(first_inner_html_at(page@, seq![], "article.font_max"@)),
        ),
{
    let css = vec!["h1", "article.font_max"];
    assert(css@ =~= chapter_selectors());
    let sels = match parse_selectors(&css) {
        Ok(s) => s,
        Err(e) => {
            return Err(e);
        },
    };
    let doc = parse_document(page);
    let title = first_text_in_document(&doc, &sels[0]);
    let raw = first_inner_html_in_document(&doc, &sels[1]);
    Ok(chapter_content(title, raw))
}

} // verus!
