//! Matching book names across sources, and filling in the covers and
//! introductions that one source lacks from another source's results.

use vstd::prelude::*;
use crate::patterns::{match_name_symbol, match_paren_group, name_symbol, paren_group};
use crate::text::{
    chars_of, contains, contains_seq, match_starts, occurs_at, replace_matches, rewrite_all,
};
use crate::classes::{name_char, open_paren};
use crate::types::{copy_opt, Book};

verus! {

/// `c` in lower case, for the characters a normalized name keeps: the ASCII
/// capitals become small letters, the rest have no lower case of their own.
pub open spec fn lower(c: char) -> char {
    if 'A' <= c && c <= 'Z' {
        ((c as u8) + 32) as u8 as char
    } else {
        c
    }
}

/// A book name reduced for comparison: bracketed groups removed, every
/// character other than CJK ideographs and ASCII letters and digits removed,
/// the rest in lower case.
pub open spec fn normalized(s: Seq<char>) -> Seq<char> {
    rewrite_all(rewrite_all(s, 0, paren_group(), seq![]), 0, name_symbol(), seq![]).map_values(
        |c: char| lower(c),
    )
}

/// Two names are taken for the same book when neither normalizes to nothing
/// and one normalized name contains the other.
pub open spec fn names_match(a: Seq<char>, b: Seq<char>) -> bool {
    let na = normalized(a);
    let nb = normalized(b);
    na.len() > 0 && nb.len() > 0 && (na == nb || contains_seq(na, nb) || contains_seq(nb, na))
}

fn lower_all(s: &Vec<char>) -> (out: Vec<char>)
    ensures
        out@ == s@.map_values(|c: char| lower(c)),
{
    let mut out: Vec<char> = Vec::new();
    let mut i: usize = 0;
    while i < s.len()
        invariant
            i <= s.len(),
            out@ == s@.take(i as int).map_values(|c: char| lower(c)),
        decreases s.len() - i,
    {
        let c = s[i];
        let l = if 'A' <= c && c <= 'Z' {
            ((c as u8) + 32) as char
        } else {
            c
        };
        out.push(l);
        i = i + 1;
        assert(out@ =~= s@.take(i as int).map_values(|c: char| lower(c)));
    }
    assert(s@.take(s.len() as int) =~= s@);
    out
}

/// The normalized form of a book name.
pub fn normalize_name(s: &str) -> (out: String)
    ensures
        out@ == normalized(s@),
{
    let chars = chars_of(s);
    let empty: Vec<char> = Vec::new();
    assert(empty@ =~= Seq::<char>::empty());
    let no_groups = replace_matches(&chars, &empty, match_paren_group, Ghost(paren_group()));
    let kept = replace_matches(&no_groups, &empty, match_name_symbol, Ghost(name_symbol()));
    crate::text::string_of(&lower_all(&kept))
}

fn normalized_chars(s: &str) -> (out: Vec<char>)
    ensures
        out@ == normalized(s@),
{
    let chars = chars_of(s);
    let empty: Vec<char> = Vec::new();
    assert(empty@ =~= Seq::<char>::empty());
    let no_groups = replace_matches(&chars, &empty, match_paren_group, Ghost(paren_group()));
    let kept = replace_matches(&no_groups, &empty, match_name_symbol, Ghost(name_symbol()));
    lower_all(&kept)
}

fn same_chars(a: &Vec<char>, b: &Vec<char>) -> (r: bool)
    ensures
        r == (a@ == b@),
{
    if a.len() != b.len() {
        return false;
    }
    let mut i: usize = 0;
    while i < a.len()
        invariant
            i <= a.len() == b.len(),
            forall|t: int| 0 <= t < i ==> a@[t] == b@[t],
        decreases a.len() - i,
    {
        if a[i] != b[i] {
            return false;
        }
        i = i + 1;
    }
    assert(a@ =~= b@);
    true
}

/// Whether two book names are taken for the same book.
pub fn fuzzy_match(a: &str, b: &str) -> (r: bool)
    ensures
        r == names_match(a@, b@),
{
    let na = normalized_chars(a);
    let nb = normalized_chars(b);
    if na.len() == 0 || nb.len() == 0 {
        return false;
    }
    same_chars(&na, &nb) || contains(&na, &nb) || contains(&nb, &na)
}

/// The first book of `sup`, from index `k` on, whose title matches `title`;
/// -1 when there is none.
pub open spec fn first_similar(title: Seq<char>, sup: Seq<Book>, k: int) -> int
    decreases sup.len() - k,
{
    if k < 0 || k >= sup.len() {
        -1
    } else if names_match(title, sup[k].title@) {
        k
    } else {
        first_similar(title, sup, k + 1)
    }
}

/// `b` with the cover and introduction it lacks taken from the first book of
/// `sup` whose title matches its own; unchanged when it has both, or when no
/// title matches.
pub open spec fn with_covers(b: Book, sup: Seq<Book>) -> Book {
    if b.cover is Some && b.intro is Some {
        b
    } else {
        let j = first_similar(b.title@, sup, 0);
        if j < 0 {
            b
        } else {
            Book {
                cover: if b.cover is None {
                    sup[j].cover
                } else {
                    b.cover
                },
                intro: if b.intro is None {
                    sup[j].intro
                } else {
                    b.intro
                },
                ..b
            }
        }
    }
}

fn find_similar(title: &str, sup: &[Book]) -> (r: Option<usize>)
    ensures
        match r {
            Some(j) => j < sup@.len() && j as int == first_similar(title@, sup@, 0),
            None => first_similar(title@, sup@, 0) == -1,
        },
{
    let mut k: usize = 0;
    while k < sup.len()
        invariant
            k <= sup@.len(),
            first_similar(title@, sup@, 0) == first_similar(title@, sup@, k as int),
        decreases sup.len() - k,
    {
        if fuzzy_match(title, sup[k].title.as_str()) {
            return Some(k);
        }
        k = k + 1;
    }
    None
}

/// Each book of `target` with the cover and introduction it lacks taken from
/// the first book of `supplement` whose title matches its own.
pub fn merge_covers(target: Vec<Book>, supplement: &[Book]) -> (out: Vec<Book>)
    ensures
        out@.len() == target@.len(),
        forall|i: int| 0 <= i < out@.len() ==> #[trigger] out@[i] == with_covers(target@[i], supplement@),
{
    let mut out: Vec<Book> = Vec::new();
    let mut i: usize = 0;
    while i < target.len()
        invariant
            i <= target@.len(),
            out@.len() == i,
            forall|t: int| 0 <= t < i ==> #[trigger] out@[t] == with_covers(target@[t], supplement@),
        decreases target.len() - i,
    {
        let book = target[i].copy();
        if book.cover.is_some() && book.intro.is_some() {
            out.push(book);
        } else {
            match find_similar(book.title.as_str(), supplement) {
                Some(j) => {
                    let m = &supplement[j];
                    let mut b = book;
                    if b.cover.is_none() {
                        b.cover = copy_opt(&m.cover);
                    }
                    if b.intro.is_none() {
                        b.intro = copy_opt(&m.intro);
                    }
                    out.push(b);
                },
                None => {
                    out.push(book);
                },
            }
        }
        i = i + 1;
    }
    out
}


/// Whether two names are taken for the same book does not depend on their order.
pub proof fn names_match_symmetric(a: Seq<char>, b: Seq<char>)
    ensures
        names_match(a, b) == names_match(b, a),
{
}

/// One name found anywhere inside the other, once both are normalized and
/// neither is empty, is enough for the two to match: at the start, in the
/// middle or at the end alike.
pub proof fn names_match_when_contained(a: Seq<char>, b: Seq<char>, j: int)
    requires
        normalized(a).len() > 0,
        normalized(b).len() > 0,
        occurs_at(normalized(a), j, normalized(b)),
    ensures
        names_match(a, b),
        names_match(b, a),
{
    assert(contains_seq(normalized(a), normalized(b)));
}

/// Two names match only when neither normalizes to nothing and one
/// normalized name occurs somewhere inside the other.
pub proof fn names_match_only_when_contained(a: Seq<char>, b: Seq<char>)
    requires
        names_match(a, b),
    ensures
        normalized(a).len() > 0,
        normalized(b).len() > 0,
        (exists|j: int| occurs_at(normalized(a), j, normalized(b))) || (exists|j: int|
            occurs_at(normalized(b), j, normalized(a))),
{
    let na = normalized(a);
    let nb = normalized(b);
    if na == nb {
        assert(na.subrange(0, nb.len() as int) =~= nb);
        assert(occurs_at(na, 0, nb));
    }
}

/// A name matches itself exactly when it does not normalize to nothing.
pub proof fn names_match_reflexive(a: Seq<char>)
    ensures
        names_match(a, a) == (normalized(a).len() > 0),
{
}

/// With no match starting anywhere from `i` on, the scan keeps the rest as it is.
pub proof fn lemma_rewrite_without_matches(
    s: Seq<char>,
    i: int,
    m: spec_fn(Seq<char>, int) -> int,
    r: Seq<char>,
)
    requires
        0 <= i <= s.len(),
        forall|k: int| i <= k < s.len() ==> !match_starts(m, s, k),
    ensures
        rewrite_all(s, i, m, r) == s.subrange(i, s.len() as int),
    decreases s.len() - i,
{
    if i < s.len() {
        assert(!match_starts(m, s, i));
        lemma_rewrite_without_matches(s, i + 1, m, r);
        assert(seq![s[i]] + s.subrange(i + 1, s.len() as int) =~= s.subrange(i, s.len() as int));
    } else {
        assert(s.subrange(i, s.len() as int) =~= Seq::<char>::empty());
    }
}

/// Dropping the characters a normalized name does not keep leaves only
/// characters it keeps.
pub proof fn lemma_symbols_dropped(s: Seq<char>, i: int)
    requires
        0 <= i <= s.len(),
    ensures
        forall|k: int|
            0 <= k < rewrite_all(s, i, name_symbol(), seq![]).len() ==> name_char()(
                #[trigger] rewrite_all(s, i, name_symbol(), seq![])[k],
            ),
    decreases s.len() - i,
{
    if i < s.len() {
        lemma_symbols_dropped(s, i + 1);
        let rest = rewrite_all(s, i + 1, name_symbol(), seq![]);
        if match_starts(name_symbol(), s, i) {
            assert(rewrite_all(s, i, name_symbol(), seq![]) =~= rest);
        } else {
            assert(rewrite_all(s, i, name_symbol(), seq![]) =~= seq![s[i]] + rest);
        }
    }
}

/// Normalizing a normalized name changes nothing.
pub proof fn normalized_idempotent(s: Seq<char>)
    ensures
        normalized(normalized(s)) == normalized(s),
{
    let kept = rewrite_all(rewrite_all(s, 0, paren_group(), seq![]), 0, name_symbol(), seq![]);
    lemma_symbols_dropped(rewrite_all(s, 0, paren_group(), seq![]), 0);
    let n = normalized(s);
    assert(forall|k: int| 0 <= k < n.len() ==> name_char()(#[trigger] n[k]) && !('A' <= n[k] && n[k] <= 'Z')) by {
        assert forall|k: int| 0 <= k < n.len() implies name_char()(#[trigger] n[k]) && !('A' <= n[k] && n[k] <= 'Z') by {
            assert(name_char()(kept[k]));
            let c = kept[k];
            if 'A' <= c && c <= 'Z' {
                assert(((c as u8) + 32) as u8 as char == n[k]);
                assert('a' <= n[k] && n[k] <= 'z') by {
                    assert(65 <= c as u32 <= 90);
                }
            }
        }
    }
    assert forall|k: int| 0 <= k < n.len() implies !match_starts(paren_group(), n, k) by {
        assert(!open_paren()(n[k]));
    }
    lemma_rewrite_without_matches(n, 0, paren_group(), seq![]);
    assert(n.subrange(0, n.len() as int) =~= n);
    assert forall|k: int| 0 <= k < n.len() implies !match_starts(name_symbol(), n, k) by {
        assert(name_char()(n[k]));
    }
    lemma_rewrite_without_matches(n, 0, name_symbol(), seq![]);
    assert(n.map_values(|c: char| lower(c)) =~= n);
}

/// Filling in covers leaves a book's title, id, source and every field it
/// already has as they were, and a book that has both a cover and an
/// introduction untouched.
pub proof fn with_covers_keeps_own_fields(b: Book, sup: Seq<Book>)
    ensures
        ({
            let m = with_covers(b, sup);
            &&& m.title == b.title
            &&& m.author == b.author
            &&& m.kind == b.kind
            &&& m.last_chapter == b.last_chapter
            &&& m.word_count == b.word_count
            &&& m.book_id == b.book_id
            &&& m.source_key == b.source_key
            &&& m.source == b.source
            &&& m.tab == b.tab
            &&& b.cover is Some ==> m.cover == b.cover
            &&& b.intro is Some ==> m.intro == b.intro
            &&& (b.cover is Some && b.intro is Some) ==> m == b
        }),
{
}

proof fn lemma_first_similar_is(title: Seq<char>, sup: Seq<Book>, i: int, k: int)
    requires
        0 <= i <= k < sup.len(),
        names_match(title, sup[k].title@),
        forall|j: int| i <= j < k ==> !names_match(title, #[trigger] sup[j].title@),
    ensures
        first_similar(title, sup, i) == k,
    decreases k - i,
{
    if i < k {
        lemma_first_similar_is(title, sup, i + 1, k);
    }
}

proof fn lemma_first_similar_none(title: Seq<char>, sup: Seq<Book>, i: int)
    requires
        0 <= i,
        forall|j: int| i <= j < sup.len() ==> !names_match(title, #[trigger] sup[j].title@),
    ensures
        first_similar(title, sup, i) == -1,
    decreases sup.len() - i,
{
    if i < sup.len() {
        lemma_first_similar_none(title, sup, i + 1);
    }
}

/// A book that lacks its cover or its introduction takes it from the first
/// result whose title matches its own, and from no other: when `sup[k]` is
/// the first such result, a missing cover becomes `sup[k]`'s cover and a
/// missing introduction `sup[k]`'s introduction.
pub proof fn with_covers_takes_first_match(b: Book, sup: Seq<Book>, k: int)
    requires
        0 <= k < sup.len(),
        names_match(b.title@, sup[k].title@),
        forall|j: int| 0 <= j < k ==> !names_match(b.title@, #[trigger] sup[j].title@),
    ensures
        b.cover is None ==> with_covers(b, sup).cover == sup[k].cover,
        b.intro is None ==> with_covers(b, sup).intro == sup[k].intro,
{
    lemma_first_similar_is(b.title@, sup, 0, k);
}

/// A book whose title matches none of the results stays as it is.
pub proof fn with_covers_without_match(b: Book, sup: Seq<Book>)
    requires
        forall|j: int| 0 <= j < sup.len() ==> !names_match(b.title@, #[trigger] sup[j].title@),
    ensures
        with_covers(b, sup) == b,
{
    lemma_first_similar_none(b.title@, sup, 0);
}

/// With nothing to take covers from, every book stays as it is.
pub proof fn with_covers_from_nothing(b: Book)
    ensures
        with_covers(b, Seq::<Book>::empty()) == b,
{
}

/// Filling in covers a second time from the same results changes nothing.
pub proof fn with_covers_idempotent(b: Book, sup: Seq<Book>)
    ensures
        with_covers(with_covers(b, sup), sup) == with_covers(b, sup),
{
}

} // verus!
