//! Brings the chapters of a book to the pages of a Confluence space.
//!
//! The library decides; its caller talks to the service. For one level of the
//! book, `group::render_group` matches the chapters with the pages that are
//! already there and names the pages to delete. For one chapter,
//! `page::PageTask` leads from the chapter's page to its stored content: the
//! images of the chapter are uploaded and rewritten (`rewrite`), the markdown
//! is wrapped for the service (`content`, `cdata`), and what the service can
//! take depends on its version (`version`).

pub mod book;
pub mod cdata;
pub mod config;
pub mod content;
pub mod error;
pub mod group;
pub mod markup;
pub mod page;
pub mod pages;
pub mod pass;
pub mod renderer;
pub mod rewrite;
pub mod text;
pub mod upload;
pub mod version;
