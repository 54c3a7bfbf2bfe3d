//! The book: chapters within chapters.

use std::path::PathBuf;
use vstd::prelude::*;

verus! {

/// A path of the file system. Nothing in the library looks inside one.
#[verifier::external_type_specification]
#[verifier::external_body]
pub struct ExPathBuf(PathBuf);

/// One chapter of the book, with the chapters below it.
#[derive(Debug)]
pub struct Chapter {
    /// The chapter's name, without the configured prefix.
    pub name: String,
    /// The chapter's markdown.
    pub content: String,
    /// Where the chapter's file lies, relative to the book's source directory.
    pub path: PathBuf,
    /// What lies below the chapter, in the order of the book.
    pub sub_items: Vec<BookItem>,
}

/// One entry of a level of the book.
#[derive(Debug)]
pub enum BookItem {
    Chapter(Chapter),
    /// A line that separates groups of chapters; it has no page.
    Separator,
}

} // verus!
