//! Book-source logic of a multi-source novel reader: what each source's pages
//! and replies are turned into (books, chapter lists, chapter text), and the
//! rules that pick a source, merge results and clean text.

pub mod classes;
pub mod codec;
pub mod commands;
pub mod dom;
pub mod matching;
pub mod pages;
pub mod parsers;
pub mod patterns;
pub mod scan;
pub mod text;
pub mod types;
