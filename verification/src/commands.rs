//! The checks the reader's commands make on their arguments before they ask
//! a source, and the source and tab they ask guangyu with.

use vstd::prelude::*;
use crate::text::{
    all_white_space, chars_of, is_white_space, lemma_trim_end_before_space, lemma_trim_idempotent,
    lemma_trim_start_after_space, lemma_trim_start_keeps_tail, string_of, trim, trim_seq,
    trim_end_seq, trim_start_seq,
};

verus! {

/// The keyword a search asks with: the trimmed keyword, or the message that
/// it is missing when it trims to nothing.
pub open spec fn search_keyword(keyword: Seq<char>) -> Result<Seq<char>, Seq<char>> {
    let t = trim_seq(keyword);
    if t.len() == 0 {
        Err("请输入搜索关键词"@)
    } else {
        Ok(t)
    }
}

pub fn check_search_keyword(keyword: &str) -> (r: Result<String, String>)
    ensures
        match (r, search_keyword(keyword@)) {
            (Ok(k), Ok(s)) => k@ == s,
            (Err(e), Err(m)) => e@ == m,
            _ => false,
        },
{
    let t = trim(&chars_of(keyword));
    if t.len() == 0 {
        Err("请输入搜索关键词".to_string())
    } else {
        Ok(string_of(&t))
    }
}

/// A keyword that holds more than white space is accepted as exactly the
/// input with the white space at its two ends trimmed; one that holds only
/// white space is refused.
pub proof fn search_keyword_is_trimmed_input(k: Seq<char>)
    ensures
        trim_seq(k).len() > 0 ==> search_keyword(k) == Ok::<Seq<char>, Seq<char>>(trim_seq(k)),
        trim_seq(k).len() == 0 ==> search_keyword(k) is Err,
{
}

/// A keyword with no white space at either end is searched with as it is,
/// inner spaces and all.
pub proof fn search_keyword_keeps_untrimmed_keyword(k: Seq<char>)
    requires
        k.len() > 0,
        !is_white_space(k[0]),
        !is_white_space(k.last()),
    ensures
        search_keyword(k) == Ok::<Seq<char>, Seq<char>>(k),
{
    assert(trim_start_seq(k) == k);
    assert(trim_end_seq(k) == k);
}

/// White space around a keyword does not change the search: with any white
/// space `p` in front and `q` after it, the keyword asks with the same
/// trimmed keyword, or fails with the same message.
pub proof fn search_keyword_ignores_surrounding_space(p: Seq<char>, k: Seq<char>, q: Seq<char>)
    requires
        all_white_space(p),
        all_white_space(q),
    ensures
        search_keyword(p + k + q) == search_keyword(k),
{
    assert(p + k + q =~= p + (k + q));
    lemma_trim_start_after_space(p, k + q);
    if all_white_space(k) {
        assert(all_white_space(k + q)) by {
            assert forall|i: int| 0 <= i < (k + q).len() implies is_white_space(
                #[trigger] (k + q)[i],
            ) by {
                if i < k.len() {
                    assert((k + q)[i] == k[i]);
                } else {
                    assert((k + q)[i] == q[i - k.len()]);
                }
            }
        }
        lemma_trim_start_after_space(k + q, seq![]);
        lemma_trim_start_after_space(k, seq![]);
        assert(k + q + seq![] =~= k + q);
        assert(k + seq![] =~= k);
        assert(trim_seq(p + k + q).len() == 0);
        assert(trim_seq(k).len() == 0);
    } else {
        lemma_trim_start_keeps_tail(k, q);
        lemma_trim_end_before_space(trim_start_seq(k), q);
    }
}

/// Trimming a keyword before it is checked changes nothing.
pub proof fn search_keyword_of_trimmed(k: Seq<char>)
    ensures
        search_keyword(trim_seq(k)) == search_keyword(k),
{
    lemma_trim_idempotent(k);
}

/// A chapter list needs a book id: the message that it is missing when it is
/// empty.
pub fn check_book_id(book_id: &str) -> (r: Result<(), String>)
    ensures
        r is Ok == (book_id@.len() > 0),
        r matches Err(e) ==> e@ == "缺少 bookId 参数"@,
{
    if book_id.is_empty() {
        Err("缺少 bookId 参数".to_string())
    } else {
        Ok(())
    }
}

/// A chapter's text needs a book id and an item id: the message that one is
/// missing when either is empty.
pub fn check_chapter_ids(book_id: &str, item_id: &str) -> (r: Result<(), String>)
    ensures
        r is Ok == (book_id@.len() > 0 && item_id@.len() > 0),
        r matches Err(e) ==> e@ == "缺少参数"@,
{
    if book_id.is_empty() || item_id.is_empty() {
        Err("缺少参数".to_string())
    } else {
        Ok(())
    }
}

/// The source within guangyu that chapter requests name.
pub fn inner_source() -> (s: String)
    ensures
        s@ == "番茄"@,
{
    "番茄".to_string()
}

/// The tab within guangyu that chapter requests name.
pub fn inner_tab() -> (s: String)
    ensures
        s@ == "小说"@,
{
    "小说".to_string()
}

} // verus!
