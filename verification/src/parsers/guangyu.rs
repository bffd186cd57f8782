//! The guangyu source: a JSON service mirrored on seven hosts, tried in turn.

use vstd::prelude::*;
use crate::classes::{ascii_space, close_paren, newline, nothing, open_paren, single};
use crate::scan::{lemma_skip_while, skip_while};
use crate::patterns::{
    alias_note, ident_attr, lemma_scan_to_reaches, match_alias_note, match_ident_attr,
};
use crate::text::{
    all_white_space, chars_of, contains, contains_seq, is_white_space, join, join_seqs,
    lemma_leftmost_is, lemma_leftmost_none, lemma_rewrite_copies, lemma_rewrite_nothing,
    lemma_trim_start_after_space, match_starts, occurs_at, paragraph_markup, paragraph_text,
    push_all, replace_first_match, replace_matches, rewrite_all, rewrite_first, string_of, trim,
    trim_end_seq, trim_seq, trim_start_seq,
};
use crate::types::{copy_opt, opt_view, Book, Chapter, ChapterContent};

verus! {

/// The hosts of the service, in the order they are tried.
pub open spec fn host_list() -> Seq<Seq<char>> {
    seq![
        "https://v1.gyks.cf"@,
        "https://v2.gyks.cf"@,
        "https://v3.gyks.cf"@,
        "https://v4.gyks.cf"@,
        "https://v5.gyks.cf"@,
        "https://v6.gyks.cf"@,
        "https://v7.gyks.cf"@,
    ]
}

/// The hosts of the service, in the order they are tried.
pub fn hosts() -> (h: Vec<String>)
    ensures
        h@.len() == host_list().len(),
        forall|k: int| 0 <= k < h@.len() ==> #[trigger] h@[k]@ == host_list()[k],
{
    let mut h: Vec<String> = Vec::new();
    h.push("https://v1.gyks.cf".to_string());
    h.push("https://v2.gyks.cf".to_string());
    h.push("https://v3.gyks.cf".to_string());
    h.push("https://v4.gyks.cf".to_string());
    h.push("https://v5.gyks.cf".to_string());
    h.push("https://v6.gyks.cf".to_string());
    h.push("https://v7.gyks.cf".to_string());
    h
}

/// What the next step of a request is, after an attempt on one host.
pub enum HostStep<T> {
    /// Ask the host with this index next.
    Retry(usize),
    /// The request is over, with this result.
    Done(Result<T, String>),
}

/// After the attempt on host `attempt` came to `outcome`: a success ends the
/// request; a failure moves on to the next host, or, on the last host, ends
/// the request with that failure.
pub open spec fn next_step<T>(attempt: int, outcome: Result<T, String>) -> HostStep<T> {
    match outcome {
        Ok(v) => HostStep::Done(Ok(v)),
        Err(e) => if attempt + 1 < host_list().len() {
            HostStep::Retry((attempt + 1) as usize)
        } else {
            HostStep::Done(Err(e))
        },
    }
}

pub fn after_attempt<T>(attempt: usize, outcome: Result<T, String>) -> (step: HostStep<T>)
    requires
        attempt < host_list().len(),
    ensures
        step == next_step(attempt as int, outcome),
{
    match outcome {
        Ok(v) => HostStep::Done(Ok(v)),
        Err(e) => if attempt + 1 < 7 {
            HostStep::Retry(attempt + 1)
        } else {
            HostStep::Done(Err(e))
        },
    }
}

/// What a request comes to when the attempts from host `k` on come to
/// `outcomes`, following `next_step` (at most `fuel` attempts).
pub open spec fn driven<T>(outcomes: Seq<Result<T, String>>, k: int, fuel: nat) -> Result<
    T,
    String,
>
    decreases fuel,
{
    if fuel == 0 {
        outcomes[k]
    } else {
        match next_step(k, outcomes[k]) {
            HostStep::Done(r) => r,
            HostStep::Retry(n) => driven(outcomes, n as int, (fuel - 1) as nat),
        }
    }
}

/// The first success among `outcomes` from index `k` on; the last outcome
/// when none before it succeeded.
pub open spec fn first_success<T>(outcomes: Seq<Result<T, String>>, k: int) -> Result<T, String>
    decreases outcomes.len() - k,
{
    if k < 0 || k + 1 >= outcomes.len() {
        outcomes[outcomes.len() - 1]
    } else if outcomes[k] is Ok {
        outcomes[k]
    } else {
        first_success(outcomes, k + 1)
    }
}

/// A request asks the hosts in order and stops at the first that answers:
/// it comes to the first host's success, or, when every host fails, to the
/// last host's failure.
pub proof fn fallback_law<T>(outcomes: Seq<Result<T, String>>)
    requires
        outcomes.len() == host_list().len(),
    ensures
        driven(outcomes, 0, host_list().len()) == first_success(outcomes, 0),
{
    lemma_driven_from(outcomes, 0);
    assert(host_list().len() == 7);
}

proof fn lemma_driven_from<T>(outcomes: Seq<Result<T, String>>, k: int)
    requires
        outcomes.len() == host_list().len(),
        0 <= k < 7,
    ensures
        driven(outcomes, k, (7 - k) as nat) == first_success(outcomes, k),
    decreases 7 - k,
{
    if k + 1 < 7 {
        lemma_driven_from(outcomes, k + 1);
    }
}

/// The path and query of a search for `keyword`.
pub open spec fn search_query(keyword: Seq<char>) -> Seq<(Seq<char>, Seq<char>)> {
    seq![
        ("title"@, keyword),
        ("tab"@, "小说"@),
        ("source"@, "番茄"@),
        ("page"@, "1"@),
        ("disabled_sources"@, "0"@),
    ]
}

/// The query pairs as strings.
pub open spec fn pairs_view(q: Seq<(String, String)>) -> Seq<(Seq<char>, Seq<char>)> {
    q.map_values(|p: (String, String)| (p.0@, p.1@))
}

fn pair(k: &str, v: &str) -> (p: (String, String))
    ensures
        p.0@ == k@,
        p.1@ == v@,
{
    (k.to_string(), v.to_string())
}

/// The query of a search: the keyword as title, the novel tab of the default
/// source, the first page, no source disabled.
pub fn search_params(keyword: &str) -> (q: Vec<(String, String)>)
    ensures
        pairs_view(q@) == search_query(keyword@),
{
    let q = vec![
        pair("title", keyword),
        pair("tab", "小说"),
        pair("source", "番茄"),
        pair("page", "1"),
        pair("disabled_sources", "0"),
    ];
    assert(pairs_view(q@) =~= search_query(keyword@));
    q
}

/// The query of the popular-books list.
pub open spec fn hot_query() -> Seq<(Seq<char>, Seq<char>)> {
    seq![
        ("source"@, "番茄"@),
        ("tab"@, "小说"@),
        ("bdtype"@, "热搜榜"@),
        ("gender"@, "1"@),
        ("is_ranking"@, "1"@),
        ("page"@, "1"@),
    ]
}

pub fn hot_params() -> (q: Vec<(String, String)>)
    ensures
        pairs_view(q@) == hot_query(),
{
    let q = vec![
        pair("source", "番茄"),
        pair("tab", "小说"),
        pair("bdtype", "热搜榜"),
        pair("gender", "1"),
        pair("is_ranking", "1"),
        pair("page", "1"),
    ];
    assert(pairs_view(q@) =~= hot_query());
    q
}

/// The query of a book's table of contents.
pub open spec fn catalog_query(book_id: Seq<char>, source: Seq<char>, tab: Seq<char>) -> Seq<
    (Seq<char>, Seq<char>),
> {
    seq![("book_id"@, book_id), ("source"@, source), ("tab"@, tab)]
}

pub fn catalog_params(book_id: &str, source: &str, tab: &str) -> (q: Vec<(String, String)>)
    ensures
        pairs_view(q@) == catalog_query(book_id@, source@, tab@),
{
    let q = vec![pair("book_id", book_id), pair("source", source), pair("tab", tab)];
    assert(pairs_view(q@) =~= catalog_query(book_id@, source@, tab@));
    q
}

/// The value that the pairs `q` give for `key`: that of the first pair with
/// that key, none when no pair has it.
pub open spec fn query_value(q: Seq<(Seq<char>, Seq<char>)>, key: Seq<char>) -> Option<Seq<char>>
    decreases q.len(),
{
    if q.len() == 0 {
        None
    } else if q[0].0 == key {
        Some(q[0].1)
    } else {
        query_value(q.drop_first(), key)
    }
}

/// The table of contents is asked for with three pairs, each argument under
/// the key that names it: the book id under `book_id`, the source under
/// `source`, the tab under `tab`.
pub proof fn catalog_query_carries_arguments(book_id: Seq<char>, source: Seq<char>, tab: Seq<char>)
    ensures
        catalog_query(book_id, source, tab).len() == 3,
        query_value(catalog_query(book_id, source, tab), "book_id"@) == Some(book_id),
        query_value(catalog_query(book_id, source, tab), "source"@) == Some(source),
        query_value(catalog_query(book_id, source, tab), "tab"@) == Some(tab),
{
    reveal_strlit("book_id");
    reveal_strlit("source");
    reveal_strlit("tab");
    let q = catalog_query(book_id, source, tab);
    assert("book_id"@ != "source"@ && "book_id"@ != "tab"@ && "source"@ != "tab"@) by {
        assert("book_id"@.len() != "source"@.len());
        assert("book_id"@.len() != "tab"@.len());
        assert("source"@.len() != "tab"@.len());
    }
    assert(q.drop_first() =~= seq![("source"@, source), ("tab"@, tab)]);
    assert(q.drop_first().drop_first() =~= seq![("tab"@, tab)]);
    reveal_with_fuel(query_value, 4);
}

/// A search asks with the keyword under `title`.
pub proof fn search_query_carries_keyword(keyword: Seq<char>)
    ensures
        query_value(search_query(keyword), "title"@) == Some(keyword),
{
}

/// The fields of the JSON body that asks for a chapter's text, in order.
pub open spec fn content_request(item_id: Seq<char>, source: Seq<char>, tab: Seq<char>) -> Seq<
    (Seq<char>, Seq<char>),
> {
    seq![
        ("html"@, ""@),
        ("item_id"@, item_id),
        ("source"@, source),
        ("tab"@, tab),
        ("tone_id"@, "4"@),
        ("variable"@, ""@),
        ("version"@, "4.11.5.1"@),
    ]
}

/// A chapter's text is asked for with the item id under `item_id`, the
/// source under `source` and the tab under `tab`.
pub proof fn content_request_carries_arguments(item_id: Seq<char>, source: Seq<char>, tab: Seq<char>)
    ensures
        query_value(content_request(item_id, source, tab), "item_id"@) == Some(item_id),
        query_value(content_request(item_id, source, tab), "source"@) == Some(source),
        query_value(content_request(item_id, source, tab), "tab"@) == Some(tab),
{
    reveal_strlit("html");
    reveal_strlit("item_id");
    reveal_strlit("source");
    reveal_strlit("tab");
    let q = content_request(item_id, source, tab);
    let q1 = q.drop_first();
    let q2 = q1.drop_first();
    let q3 = q2.drop_first();
    assert("html"@ != "item_id"@ && "html"@ != "source"@ && "html"@ != "tab"@) by {
        assert("html"@.len() != "item_id"@.len());
        assert("html"@.len() != "source"@.len());
        assert("html"@[0] != "tab"@[0]);
    }
    assert("item_id"@ != "source"@ && "item_id"@ != "tab"@ && "source"@ != "tab"@) by {
        assert("item_id"@.len() != "source"@.len());
        assert("item_id"@.len() != "tab"@.len());
        assert("source"@.len() != "tab"@.len());
    }
    assert(q1[0] == ("item_id"@, item_id));
    assert(q2[0] == ("source"@, source));
    assert(q3[0] == ("tab"@, tab));
    reveal_with_fuel(query_value, 5);
}

pub fn content_fields(item_id: &str, source: &str, tab: &str) -> (q: Vec<(String, String)>)
    ensures
        pairs_view(q@) == content_request(item_id@, source@, tab@),
{
    let q = vec![
        pair("html", ""),
        pair("item_id", item_id),
        pair("source", source),
        pair("tab", tab),
        pair("tone_id", "4"),
        pair("variable", ""),
        pair("version", "4.11.5.1"),
    ];
    assert(pairs_view(q@) =~= content_request(item_id@, source@, tab@));
    q
}


/// A book name without its first alias note, trimmed.
pub open spec fn cleaned_name(name: Seq<char>) -> Seq<char> {
    trim_seq(rewrite_first(name, alias_note(), seq![]))
}

/// A name with no opening parenthesis holds no alias note: it is only
/// trimmed.
pub proof fn cleaned_name_without_note(name: Seq<char>)
    requires
        forall|p: int| 0 <= p < name.len() ==> !open_paren()(#[trigger] name[p]),
    ensures
        cleaned_name(name) == trim_seq(name),
{
    assert forall|j: int| 0 <= j < name.len() implies !#[trigger] match_starts(
        alias_note(),
        name,
        j,
    ) by {
        assert(!open_paren()(name[j]));
    }
    lemma_leftmost_none(alias_note(), name, 0);
}

/// The first alias note of a name (`（别名：...）`, with either kind of
/// parenthesis and colon, on one line) is cut out, and only the first: what
/// stands before and after it is kept, then trimmed.
pub proof fn cleaned_name_cuts_first_note(
    a: Seq<char>,
    open: char,
    colon: char,
    x: Seq<char>,
    close: char,
    c: Seq<char>,
)
    requires
        forall|p: int| 0 <= p < a.len() ==> !open_paren()(#[trigger] a[p]),
        open_paren()(open),
        colon == ':' || colon == '：',
        forall|p: int| 0 <= p < x.len() ==> !close_paren()(#[trigger] x[p]) && x[p] != '\n',
        close_paren()(close),
    ensures
        cleaned_name(a + (seq![open, '别', '名', colon] + x + seq![close]) + c) == trim_seq(a + c),
{
    let note = seq![open, '别', '名', colon] + x + seq![close];
    let s = a + note + c;
    let k = a.len() as int;
    assert forall|p: int| 0 <= p < k implies !#[trigger] match_starts(alias_note(), s, p) by {
        assert(s[p] == a[p]);
    }
    assert(s[k] == open && s[k + 1] == '别' && s[k + 2] == '名' && s[k + 3] == colon);
    assert forall|p: int| k + 4 <= p < k + 4 + x.len() implies !close_paren()(#[trigger] s[p])
        && !newline()(s[p]) by {
        assert(s[p] == x[p - k - 4]);
    }
    assert(s[k + 4 + x.len()] == close);
    lemma_scan_to_reaches(s, k + 4, k + 4 + x.len(), newline(), close_paren());
    assert(alias_note()(s, k) == k + note.len());
    lemma_leftmost_is(alias_note(), s, 0, k);
    assert(rewrite_first(s, alias_note(), seq![]) =~= a + c);
}

/// A book name without its alias note (`（别名：...）`), trimmed.
pub fn clean_book_name(name: &str) -> (out: String)
    ensures
        out@ == cleaned_name(name@),
{
    let empty: Vec<char> = Vec::new();
    assert(empty@ =~= Seq::<char>::empty());
    let s = replace_first_match(&chars_of(name), &empty, match_alias_note, Ghost(alias_note()));
    string_of(&trim(&s))
}

/// Chapter text as the service sends it, made into paragraphs: the `ident`
/// attributes (with the white space before them) removed, then each
/// non-empty trimmed line wrapped in `<p>`.
pub open spec fn cleaned_content(text: Seq<char>) -> Seq<char> {
    paragraph_markup(rewrite_all(text, 0, ident_attr(), seq![]))
}

/// Chapter text with no `ident="` in it is only made into paragraphs.
pub proof fn plain_content_only_paragraphed(text: Seq<char>)
    requires
        !contains_seq(text, "ident=\""@),
    ensures
        cleaned_content(text) == paragraph_markup(text),
{
    assert forall|p: int| 0 <= p < text.len() implies !(p < #[trigger] ident_attr()(text, p)
        && ident_attr()(text, p) <= text.len()) by {
        let k = skip_while(text, p, ascii_space());
        assert(!occurs_at(text, k, "ident=\""@));
    }
    lemma_rewrite_nothing(text, ident_attr(), seq![]);
}

/// An `ident="..."` attribute is cut out of chapter text where it stands
/// (with the white space before it, which the text `a` ends without), and
/// the rest made into paragraphs.
pub proof fn ident_attr_cut(a: Seq<char>, x: Seq<char>, c: Seq<char>)
    requires
        a.len() > 0 ==> !ascii_space()(a.last()),
        forall|p: int| 0 <= p < x.len() ==> #[trigger] x[p] != '"',
        forall|q: int|
            0 <= q < (a + ("ident=\""@ + x + seq!['"']) + c).len() && q != a.len() ==> !occurs_at(
                a + ("ident=\""@ + x + seq!['"']) + c,
                q,
                "ident=\""@,
            ),
    ensures
        cleaned_content(a + ("ident=\""@ + x + seq!['"']) + c) == paragraph_markup(a + c),
{
    reveal_strlit("ident=\"");
    let mark = "ident=\""@;
    let note = mark + x + seq!['"'];
    let s = a + note + c;
    let k = a.len() as int;
    let e = k + note.len();
    let m = ident_attr();
    assert forall|p: int| 0 <= p < k implies !(p < #[trigger] m(s, p) && m(s, p) <= s.len()) by {
        lemma_skip_while(s, p, ascii_space());
        let r = skip_while(s, p, ascii_space());
        if r >= k {
            assert(s[k - 1] == a.last());
            assert(ascii_space()(s[k - 1]));
        }
        assert(!occurs_at(s, r, mark));
    }
    lemma_rewrite_copies(s, 0, k, m, seq![]);
    assert(s[k] == 'i');
    assert(skip_while(s, k, ascii_space()) == k);
    assert(s.subrange(k, k + 7) =~= mark);
    assert forall|q: int| k + 7 <= q < k + 7 + x.len() implies !single('"')(#[trigger] s[q])
        && !nothing()(s[q]) by {
        assert(s[q] == x[q - k - 7]);
    }
    assert(s[k + 7 + x.len()] == '"');
    lemma_scan_to_reaches(s, k + 7, k + 7 + x.len(), nothing(), single('"'));
    assert(m(s, k) == e);
    assert forall|p: int| e <= p < s.len() implies !(p < #[trigger] m(s, p) && m(s, p) <= s.len()) by {
        lemma_skip_while(s, p, ascii_space());
        let r = skip_while(s, p, ascii_space());
        assert(!occurs_at(s, r, mark));
    }
    lemma_rewrite_copies(s, e, s.len() as int, m, seq![]);
    assert(s.subrange(0, k) =~= a);
    assert(s.subrange(e, s.len() as int) =~= c);
    assert(rewrite_all(s, s.len() as int, m, seq![]) =~= Seq::<char>::empty());
    assert(rewrite_all(s, 0, m, seq![]) =~= a + c);
}

pub fn clean_content(text: &str) -> (out: String)
    ensures
        out@ == cleaned_content(text@),
{
    let empty: Vec<char> = Vec::new();
    assert(empty@ =~= Seq::<char>::empty());
    let s = replace_matches(&chars_of(text), &empty, match_ident_attr, Ghost(ident_attr()));
    string_of(&paragraph_text(&s))
}

/// What a book record of the service holds: each field whose value is a
/// JSON string, by its key (`summary` is the `abstract` field).
pub struct BookItem {
    pub book_name: Option<String>,
    pub author: Option<String>,
    pub thumb_url: Option<String>,
    pub summary: Option<String>,
    pub status: Option<String>,
    pub score: Option<String>,
    pub tags: Option<String>,
    pub last_chapter_update_time: Option<String>,
    pub source: Option<String>,
    pub last_chapter_title: Option<String>,
    pub word_number: Option<String>,
    pub book_id: Option<String>,
    pub tab: Option<String>,
}

/// A field's text, or `default` when the record lacks it.
pub open spec fn text_or(o: Option<String>, default: Seq<char>) -> Seq<char> {
    match o {
        Some(t) => t@,
        None => default,
    }
}

/// The texts of the fields in `fields` that the record has and that are not
/// empty, in order.
pub open spec fn present(fields: Seq<Option<String>>) -> Seq<Seq<char>>
    decreases fields.len(),
{
    if fields.len() == 0 {
        seq![]
    } else {
        present(fields.drop_last()) + (match fields.last() {
            Some(t) => if t@.len() > 0 {
                seq![t@]
            } else {
                seq![]
            },
            None => seq![],
        })
    }
}

/// A record's kind: its status, score, tags and update time, those it has
/// that are not empty, joined by ` / `; none when it has none of them.
pub open spec fn item_kind(item: BookItem) -> Option<Seq<char>> {
    let parts = present(seq![item.status, item.score, item.tags, item.last_chapter_update_time]);
    if parts.len() == 0 {
        None
    } else {
        Some(join_seqs(parts, " / "@))
    }
}

/// The record has the field and it is not empty.
pub open spec fn filled(o: Option<String>) -> bool {
    o matches Some(t) && t@.len() > 0
}

/// What a field adds to the list of present ones.
pub open spec fn piece(o: Option<String>) -> Seq<Seq<char>> {
    if filled(o) {
        seq![o->0@]
    } else {
        seq![]
    }
}

proof fn lemma_present_four(
    a: Option<String>,
    b: Option<String>,
    c: Option<String>,
    d: Option<String>,
)
    ensures
        present(seq![a, b, c, d]) == piece(a) + piece(b) + piece(c) + piece(d),
{
    let f = seq![a, b, c, d];
    assert(f.drop_last() =~= seq![a, b, c]);
    assert(f.drop_last().drop_last() =~= seq![a, b]);
    assert(f.drop_last().drop_last().drop_last() =~= seq![a]);
    assert(f.drop_last().drop_last().drop_last().drop_last() =~= Seq::<Option<String>>::empty());
    reveal_with_fuel(present, 5);
    assert(present(seq![a]) =~= piece(a));
    assert(present(seq![a, b]) =~= piece(a) + piece(b));
    assert(present(seq![a, b, c]) =~= piece(a) + piece(b) + piece(c));
}

/// The first item of a joined list starts it.
proof fn lemma_join_starts(list: Seq<Seq<char>>, sep: Seq<char>)
    requires
        list.len() > 0,
    ensures
        occurs_at(join_seqs(list, sep), 0, list[0]),
    decreases list.len(),
{
    if list.len() > 1 {
        lemma_join_starts(list.drop_last(), sep);
        let j = join_seqs(list.drop_last(), sep);
        assert((j + sep + list.last()).subrange(0, list[0].len() as int) =~= j.subrange(
            0,
            list[0].len() as int,
        ));
    } else {
        assert(join_seqs(list, sep).subrange(0, list[0].len() as int) =~= list[0]);
    }
}

/// The last item of a joined list ends it.
proof fn lemma_join_ends(list: Seq<Seq<char>>, sep: Seq<char>)
    requires
        list.len() > 0,
    ensures
        occurs_at(
            join_seqs(list, sep),
            join_seqs(list, sep).len() - list.last().len(),
            list.last(),
        ),
{
    let j = join_seqs(list, sep);
    if list.len() > 1 {
        let h = join_seqs(list.drop_last(), sep) + sep;
        assert(j == h + list.last());
        assert(j.subrange(h.len() as int, j.len() as int) =~= list.last());
    } else {
        assert(j.subrange(0, j.len() as int) =~= list.last());
    }
}

/// Every item of a joined list occurs in it.
proof fn lemma_join_holds(list: Seq<Seq<char>>, sep: Seq<char>, i: int)
    requires
        0 <= i < list.len(),
    ensures
        contains_seq(join_seqs(list, sep), list[i]),
    decreases list.len(),
{
    let j = join_seqs(list, sep);
    if i == list.len() - 1 {
        lemma_join_ends(list, sep);
    } else {
        lemma_join_holds(list.drop_last(), sep, i);
        let h = join_seqs(list.drop_last(), sep);
        assert(list.drop_last()[i] == list[i]);
        let p = choose|p: int| occurs_at(h, p, list[i]);
        assert(j == h + (sep + list.last()));
        assert(j.subrange(p, p + list[i].len()) =~= h.subrange(p, p + list[i].len()));
        assert(occurs_at(j, p, list[i]));
    }
}

/// A record's kind is absent exactly when none of its status, score, tags
/// and update time is there and non-empty.
pub proof fn item_kind_absent(item: BookItem)
    ensures
        item_kind(item) is None <==> !filled(item.status) && !filled(item.score) && !filled(
            item.tags,
        ) && !filled(item.last_chapter_update_time),
{
    lemma_present_four(item.status, item.score, item.tags, item.last_chapter_update_time);
}

/// Each of the status, score, tags and update time that the record has,
/// non-empty, is written in its kind; the status, when there, comes first
/// and the update time, when there, comes last.
pub proof fn item_kind_shows_fields(item: BookItem)
    ensures
        filled(item.status) ==> (item_kind(item) matches Some(k) && occurs_at(
            k,
            0,
            item.status->0@,
        )),
        filled(item.last_chapter_update_time) ==> (item_kind(item) matches Some(k) && occurs_at(
            k,
            k.len() - item.last_chapter_update_time->0@.len(),
            item.last_chapter_update_time->0@,
        )),
        filled(item.status) ==> (item_kind(item) matches Some(k) && contains_seq(
            k,
            item.status->0@,
        )),
        filled(item.score) ==> (item_kind(item) matches Some(k) && contains_seq(
            k,
            item.score->0@,
        )),
        filled(item.tags) ==> (item_kind(item) matches Some(k) && contains_seq(k, item.tags->0@)),
        filled(item.last_chapter_update_time) ==> (item_kind(item) matches Some(k) && contains_seq(
            k,
            item.last_chapter_update_time->0@,
        )),
{
    let (a, b, c, d) = (item.status, item.score, item.tags, item.last_chapter_update_time);
    lemma_present_four(a, b, c, d);
    let parts = present(seq![a, b, c, d]);
    let sep = " / "@;
    if parts.len() > 0 {
        lemma_join_starts(parts, sep);
        lemma_join_ends(parts, sep);
        if filled(a) {
            assert(parts[0] == a->0@);
            lemma_join_holds(parts, sep, 0);
        }
        if filled(b) {
            let i = piece(a).len() as int;
            assert(parts[i] == b->0@);
            lemma_join_holds(parts, sep, i);
        }
        if filled(c) {
            let i = (piece(a).len() + piece(b).len()) as int;
            assert(parts[i] == c->0@);
            lemma_join_holds(parts, sep, i);
        }
        if filled(d) {
            assert(parts.last() == d->0@);
            lemma_join_holds(parts, sep, parts.len() - 1);
        }
    }
}

/// With all four there and non-empty, the kind is status, score, tags and
/// update time in that order, separated by ` / `.
pub proof fn item_kind_of_full_record(item: BookItem)
    requires
        filled(item.status),
        filled(item.score),
        filled(item.tags),
        filled(item.last_chapter_update_time),
    ensures
        item_kind(item) == Some(
            item.status->0@ + " / "@ + item.score->0@ + " / "@ + item.tags->0@ + " / "@
                + item.last_chapter_update_time->0@,
        ),
{
    let (a, b, c, d) = (item.status, item.score, item.tags, item.last_chapter_update_time);
    lemma_present_four(a, b, c, d);
    let parts = present(seq![a, b, c, d]);
    assert(parts =~= seq![a->0@, b->0@, c->0@, d->0@]);
    assert(parts.drop_last() =~= seq![a->0@, b->0@, c->0@]);
    assert(parts.drop_last().drop_last() =~= seq![a->0@, b->0@]);
    assert(parts.drop_last().drop_last().drop_last() =~= seq![a->0@]);
    reveal_with_fuel(join_seqs, 4);
}

/// A record's last chapter: its source and last chapter title, joined by a
/// space and trimmed; none when both are missing or empty.
pub open spec fn item_last_chapter(item: BookItem) -> Option<Seq<char>> {
    let src = text_or(item.source, seq![]);
    let title = text_or(item.last_chapter_title, seq![]);
    if src.len() == 0 && title.len() == 0 {
        None
    } else {
        Some(trim_seq(src + seq![' '] + title))
    }
}

/// A record's last chapter is its source, a space and its last chapter
/// title, when it has both and neither has white space at its ends; the
/// title alone, trimmed, when it names no source.
pub proof fn item_last_chapter_joins(item: BookItem)
    ensures
        ({
            let src = item.source->0@;
            let title = item.last_chapter_title->0@;
            filled(item.source) && filled(item.last_chapter_title) && !is_white_space(src[0])
                && !is_white_space(title.last()) ==> item_last_chapter(item) == Some(
                src + seq![' '] + title,
            )
        }),
        item.source is None && filled(item.last_chapter_title) ==> item_last_chapter(item) == Some(
            trim_seq(item.last_chapter_title->0@),
        ),
{
    let src = text_or(item.source, seq![]);
    let title = text_or(item.last_chapter_title, seq![]);
    let w = src + seq![' '] + title;
    if filled(item.source) && filled(item.last_chapter_title) && !is_white_space(src[0])
        && !is_white_space(title.last()) {
        assert(w[0] == src[0]);
        assert(w.last() == title.last());
        assert(trim_start_seq(w) == w);
        assert(trim_end_seq(w) == w);
    }
    if item.source is None && filled(item.last_chapter_title) {
        assert(w =~= seq![' '] + title);
        assert(all_white_space(seq![' ']));
        lemma_trim_start_after_space(seq![' '], title);
    }
}

/// `b` is the book of record `item`.
pub open spec fn book_of_item(item: BookItem, b: Book) -> bool {
    &&& b.title@ == cleaned_name(text_or(item.book_name, seq![]))
    &&& b.author == item.author
    &&& b.cover == item.thumb_url
    &&& b.intro == item.summary
    &&& opt_view(b.kind) == item_kind(item)
    &&& opt_view(b.last_chapter) == item_last_chapter(item)
    &&& b.word_count == item.word_number
    &&& b.book_id@ == text_or(item.book_id, seq![])
    &&& b.source_key@ == "guangyu"@
    &&& b.source@ == text_or(item.source, "番茄"@)
    &&& b.tab@ == text_or(item.tab, "小说"@)
}

fn text_or_exec(o: &Option<String>, default: &str) -> (t: String)
    ensures
        t@ == text_or(*o, default@),
{
    match o {
        Some(s) => s.clone(),
        None => default.to_string(),
    }
}

fn kind_of(item: &BookItem) -> (k: Option<String>)
    ensures
        opt_view(k) == item_kind(*item),
{
    let fields = vec![
        copy_opt(&item.status),
        copy_opt(&item.score),
        copy_opt(&item.tags),
        copy_opt(&item.last_chapter_update_time),
    ];
    let ghost fs = seq![item.status, item.score, item.tags, item.last_chapter_update_time];
    assert(fields@ =~= fs);
    let mut parts: Vec<Vec<char>> = Vec::new();
    let ghost mut gp: Seq<Seq<char>> = seq![];
    let mut i: usize = 0;
    while i < fields.len()
        invariant
            i <= fields.len(),
            fields@ == fs,
            parts.len() == gp.len(),
            forall|k: int| 0 <= k < gp.len() ==> #[trigger] parts@[k]@ == gp[k],
            gp == present(fs.take(i as int)),
        decreases fields.len() - i,
    {
        assert(fs.take(i + 1).drop_last() =~= fs.take(i as int));
        match &fields[i] {
            Some(t) => {
                if !t.as_str().is_empty() {
                    let c = chars_of(t.as_str());
                    proof {
                        gp = gp.push(c@);
                    }
                    parts.push(c);
                    assert(gp == present(fs.take(i + 1)));
                } else {
                    assert(gp + Seq::<Seq<char>>::empty() =~= gp);
                }
            },
            None => {
                assert(gp + Seq::<Seq<char>>::empty() =~= gp);
            },
        }
        i = i + 1;
    }
    assert(fs.take(4) =~= fs);
    if parts.len() == 0 {
        None
    } else {
        Some(string_of(&join(&parts, &chars_of(" / "), Ghost(gp))))
    }
}

fn last_chapter_of(item: &BookItem) -> (l: Option<String>)
    ensures
        opt_view(l) == item_last_chapter(*item),
{
    let src = chars_of(text_or_exec(&item.source, "").as_str());
    let title = chars_of(text_or_exec(&item.last_chapter_title, "").as_str());
    proof {
        reveal_strlit("");
    }
    assert(""@ =~= Seq::<char>::empty());
    assert(src@ == text_or(item.source, seq![]));
    assert(title@ == text_or(item.last_chapter_title, seq![]));
    if src.len() == 0 && title.len() == 0 {
        None
    } else {
        let ghost gs = src@;
        let mut joined = src;
        joined.push(' ');
        push_all(&mut joined, &title);
        assert(joined@ =~= gs + seq![' '] + title@);
        Some(string_of(&trim(&joined)))
    }
}

/// The book of a record of the service.
pub fn map_book(item: &BookItem) -> (b: Book)
    ensures
        book_of_item(*item, b),
{
    let name = text_or_exec(&item.book_name, "");
    proof {
        reveal_strlit("");
    }
    assert(text_or(item.book_name, ""@) == text_or(item.book_name, seq![]));
    Book {
        title: clean_book_name(name.as_str()),
        author: copy_opt(&item.author),
        cover: copy_opt(&item.thumb_url),
        intro: copy_opt(&item.summary),
        kind: kind_of(item),
        last_chapter: last_chapter_of(item),
        word_count: copy_opt(&item.word_number),
        book_id: {
            let id = text_or_exec(&item.book_id, "");
            assert(text_or(item.book_id, ""@) == text_or(item.book_id, seq![]));
            id
        },
        source_key: "guangyu".to_string(),
        source: text_or_exec(&item.source, "番茄"),
        tab: text_or_exec(&item.tab, "小说"),
    }
}

/// The books of the records of a reply (none when its `data` is not a
/// list), at most `limit` of them from the front when there is a limit.
pub fn books_from_items(data: &Option<Vec<BookItem>>, limit: Option<usize>) -> (books: Vec<Book>)
    ensures
        books@.len() == match data {
            Some(items) => match limit {
                Some(n) => if items@.len() < n {
                    items@.len()
                } else {
                    n as nat
                },
                None => items@.len(),
            },
            None => 0,
        },
        forall|k: int|
            0 <= k < books@.len() ==> book_of_item(data->0@[k], #[trigger] books@[k]),
{
    let mut books: Vec<Book> = Vec::new();
    match data {
        Some(items) => {
            let n = match limit {
                Some(n) => if items.len() < n {
                    items.len()
                } else {
                    n
                },
                None => items.len(),
            };
            let mut i: usize = 0;
            while i < n
                invariant
                    i <= n <= items@.len(),
                    *data == Some(*items),
                    books@.len() == i,
                    forall|k: int|
                        0 <= k < i ==> book_of_item(items@[k], #[trigger] books@[k]),
                decreases n - i,
            {
                books.push(map_book(&items[i]));
                i = i + 1;
            }
        },
        None => {},
    }
    books
}

/// What a table-of-contents record holds: its `title` and `item_id`, when
/// they are JSON strings.
pub struct ChapterItem {
    pub title: Option<String>,
    pub item_id: Option<String>,
}

/// The chapters of the records of a reply (none when its `data` is not a
/// list): each record's title and item id, empty when missing.
pub fn chapters_from_items(data: &Option<Vec<ChapterItem>>) -> (chapters: Vec<Chapter>)
    ensures
        chapters@.len() == match data {
            Some(items) => items@.len(),
            None => 0,
        },
        forall|k: int|
            0 <= k < chapters@.len() ==> {
                &&& #[trigger] chapters@[k].title@ == text_or(data->0@[k].title, seq![])
                &&& chapters@[k].item_id@ == text_or(data->0@[k].item_id, seq![])
            },
{
    let mut chapters: Vec<Chapter> = Vec::new();
    proof {
        reveal_strlit("");
    }
    match data {
        Some(items) => {
            let mut i: usize = 0;
            while i < items.len()
                invariant
                    i <= items@.len(),
                    *data == Some(*items),
                    chapters@.len() == i,
                    ""@ =~= Seq::<char>::empty(),
                    forall|k: int|
                        0 <= k < i ==> {
                            &&& #[trigger] chapters@[k].title@ == text_or(items@[k].title, seq![])
                            &&& chapters@[k].item_id@ == text_or(items@[k].item_id, seq![])
                        },
                decreases items.len() - i,
            {
                let c = Chapter {
                    title: text_or_exec(&items[i].title, ""),
                    item_id: text_or_exec(&items[i].item_id, ""),
                };
                chapters.push(c);
                i = i + 1;
            }
        },
        None => {},
    }
    chapters
}

/// The notice with which the service refuses a chapter once the day's free
/// reads are used up.
pub open spec fn limit_notice() -> Seq<char> {
    "免登录访问次数已达上限"@
}

/// The message the reader shows then.
pub open spec fn limit_message() -> Seq<char> {
    "今日免费阅读次数已用完（每日3次），请明天再试"@
}

/// A chapter from the service's reply (its `title` and `content`, when they
/// are JSON strings): refused with the limit message when the content holds
/// the limit notice, otherwise the title (empty when missing) and the cleaned
/// content.
pub fn content_from_reply(title: &Option<String>, content: &Option<String>) -> (r: Result<
    ChapterContent,
    String,
>)
    ensures
        contains_seq(text_or(*content, seq![]), limit_notice()) ==> (r matches Err(e) && e@
            == limit_message()),
        !contains_seq(text_or(*content, seq![]), limit_notice()) ==> (r matches Ok(c) && c.title@
            == text_or(*title, seq![]) && c.content@ == cleaned_content(
            text_or(*content, seq![]),
        )),
{
    proof {
        reveal_strlit("");
    }
    let raw = text_or_exec(content, "");
    assert(""@ =~= Seq::<char>::empty());
    let raw_chars = chars_of(raw.as_str());
    if contains(&raw_chars, &chars_of("免登录访问次数已达上限")) {
        return Err("今日免费阅读次数已用完（每日3次），请明天再试".to_string());
    }
    let t = text_or_exec(title, "");
    Ok(ChapterContent { title: t, content: clean_content(raw.as_str()) })
}

} // verus!
