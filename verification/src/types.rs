//! The records that the reader shows: books, chapters, chapter text, and the
//! reply that wraps each of them.

use vstd::prelude::*;

verus! {

/// A book as a source lists it.
#[derive(Debug, Clone, PartialEq, Eq)]
pub struct Book {
    pub title: String,
    pub author: Option<String>,
    pub cover: Option<String>,
    pub intro: Option<String>,
    pub kind: Option<String>,
    pub last_chapter: Option<String>,
    pub word_count: Option<String>,
    pub book_id: String,
    pub source_key: String,
    pub source: String,
    pub tab: String,
}

/// One entry of a book's table of contents.
#[derive(Debug, Clone, PartialEq, Eq)]
pub struct Chapter {
    pub title: String,
    pub item_id: String,
}

/// A chapter's title and its text as `<p>` paragraphs.
#[derive(Debug, Clone, PartialEq, Eq)]
pub struct ChapterContent {
    pub title: String,
    pub content: String,
}

/// The reply to the front end: the data on success, a message otherwise.
#[derive(Debug, Clone, PartialEq, Eq)]
pub struct ApiResponse<T> {
    pub success: bool,
    pub data: Option<T>,
    pub error: Option<String>,
}

impl<T> ApiResponse<T> {
    pub fn ok(data: T) -> (r: Self)
        ensures
            r.success,
            r.data == Some(data),
            r.error is None,
    {
        ApiResponse { success: true, data: Some(data), error: None }
    }

    pub fn err(message: &str) -> (r: Self)
        ensures
            !r.success,
            r.data is None,
            r.error matches Some(m) && m@ == message@,
    {
        ApiResponse { success: false, data: None, error: Some(message.to_string()) }
    }

    /// The reply for a source's result: its data, or its error message.
    pub fn from_result(result: Result<T, String>) -> (r: Self)
        ensures
            r.success == result is Ok,
            result matches Ok(d) ==> r.data == Some(d) && r.error is None,
            result matches Err(e) ==> r.data is None && r.error == Some(e),
    {
        match result {
            Ok(data) => ApiResponse::ok(data),
            Err(e) => ApiResponse { success: false, data: None, error: Some(e) },
        }
    }
}

/// The view of an optional string.
pub open spec fn opt_view(o: Option<String>) -> Option<Seq<char>> {
    match o {
        Some(t) => Some(t@),
        None => None,
    }
}

/// A copy of an optional string.
pub fn copy_opt(o: &Option<String>) -> (r: Option<String>)
    ensures
        r == *o,
{
    match o {
        Some(s) => Some(s.clone()),
        None => None,
    }
}

impl Book {
    /// A field-by-field copy.
    pub fn copy(&self) -> (r: Book)
        ensures
            r == *self,
    {
        Book {
            title: self.title.clone(),
            author: copy_opt(&self.author),
            cover: copy_opt(&self.cover),
            intro: copy_opt(&self.intro),
            kind: copy_opt(&self.kind),
            last_chapter: copy_opt(&self.last_chapter),
            word_count: copy_opt(&self.word_count),
            book_id: self.book_id.clone(),
            source_key: self.source_key.clone(),
            source: self.source.clone(),
            tab: self.tab.clone(),
        }
    }
}

} // verus!
