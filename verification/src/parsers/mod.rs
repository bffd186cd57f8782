//! The book sources, and the routing of each request to one of them.

pub mod biquge;
pub mod guangyu;
pub mod qixinge;

use vstd::prelude::*;
use crate::matching::{merge_covers, with_covers};
use crate::text::{chars_of, push_all, same_text, string_of};
use crate::types::Book;

verus! {

/// The book sources a request can name.
#[derive(Debug, Clone, Copy, PartialEq, Eq)]
pub enum Source {
    Guangyu,
    Biquge900,
    Qixinge,
}

/// The source a name stands for: `guangyu`, `biquge900` or `qixinge`.
pub open spec fn source_named(name: Seq<char>) -> Option<Source> {
    if name == "guangyu"@ {
        Some(Source::Guangyu)
    } else if name == "biquge900"@ {
        Some(Source::Biquge900)
    } else if name == "qixinge"@ {
        Some(Source::Qixinge)
    } else {
        None
    }
}

/// The message for a source name that stands for no source.
pub open spec fn unknown_source(name: Seq<char>) -> Seq<char> {
    "未知书源: "@ + name
}

/// The source a request names, or the message that it names none.
pub fn parse_source(name: &str) -> (r: Result<Source, String>)
    ensures
        match source_named(name@) {
            Some(s) => r == Ok::<Source, String>(s),
            None => r matches Err(e) && e@ == unknown_source(name@),
        },
{
    if same_text(name, "guangyu") {
        Ok(Source::Guangyu)
    } else if same_text(name, "biquge900") {
        Ok(Source::Biquge900)
    } else if same_text(name, "qixinge") {
        Ok(Source::Qixinge)
    } else {
        let mut m = chars_of("未知书源: ");
        push_all(&mut m, &chars_of(name));
        Err(string_of(&m))
    }
}

/// The books a biquge900 search gives: the biquge results with the covers
/// and introductions they lack taken from the guangyu results (none when the
/// guangyu search failed); the biquge failure when that search failed.
pub fn with_guangyu_covers(
    biquge: Result<Vec<Book>, String>,
    guangyu: Result<Vec<Book>, String>,
) -> (r: Result<Vec<Book>, String>)
    ensures
        biquge matches Err(e) ==> r == Err::<Vec<Book>, String>(e),
        biquge matches Ok(books) ==> (r matches Ok(merged) && merged@.len() == books@.len() && (
        forall|k: int|
            0 <= k < merged@.len() ==> #[trigger] merged@[k] == with_covers(
                books@[k],
                match guangyu {
                    Ok(g) => g@,
                    Err(_) => Seq::<Book>::empty(),
                },
            ))),
{
    let supplement: Vec<Book> = match guangyu {
        Ok(g) => g,
        Err(_) => Vec::new(),
    };
    match biquge {
        Ok(books) => Ok(merge_covers(books, supplement.as_slice())),
        Err(e) => Err(e),
    }
}

} // verus!
