//! The pages of the remote service, as far as the library reads and writes
//! them.

use vstd::prelude::*;

verus! {

/// A page of the remote service, as far as the synchronisation reads it.
#[derive(Debug, Clone)]
pub struct Page {
    pub id: i64,
    pub space: String,
    pub title: String,
    pub url: String,
    /// The counter that a later store of this page has to hand back.
    pub version: i32,
}

/// A `Page` as plain values.
pub struct PageView {
    pub id: i64,
    pub space: Seq<char>,
    pub title: Seq<char>,
    pub url: Seq<char>,
    pub version: i32,
}

impl View for Page {
    type V = PageView;

    open spec fn view(&self) -> PageView {
        PageView {
            id: self.id,
            space: self.space@,
            title: self.title@,
            url: self.url@,
            version: self.version,
        }
    }
}

/// A child page as the remote service lists it.
#[derive(Debug, Clone)]
pub struct PageSummary {
    pub id: i64,
    pub space: String,
    pub title: String,
    pub url: String,
}

/// A `PageSummary` as plain values.
pub struct PageSummaryView {
    pub id: i64,
    pub space: Seq<char>,
    pub title: Seq<char>,
    pub url: Seq<char>,
}

impl View for PageSummary {
    type V = PageSummaryView;

    open spec fn view(&self) -> PageSummaryView {
        PageSummaryView { id: self.id, space: self.space@, title: self.title@, url: self.url@ }
    }
}

/// What is handed to the remote service to store a page. Without `id` and
/// `version` the service creates a page; with them it updates the page `id`,
/// provided `version` is the page's current counter.
#[derive(Debug, Clone)]
pub struct UpdatePage {
    pub id: Option<i64>,
    pub space: String,
    pub title: String,
    pub content: String,
    pub version: Option<i32>,
    pub parent_id: Option<i64>,
}

/// An `UpdatePage` as plain values.
pub struct UpdatePageView {
    pub id: Option<i64>,
    pub space: Seq<char>,
    pub title: Seq<char>,
    pub content: Seq<char>,
    pub version: Option<i32>,
    pub parent_id: Option<i64>,
}

impl View for UpdatePage {
    type V = UpdatePageView;

    open spec fn view(&self) -> UpdatePageView {
        UpdatePageView {
            id: self.id,
            space: self.space@,
            title: self.title@,
            content: self.content@,
            version: self.version,
            parent_id: self.parent_id,
        }
    }
}

/// The page under which the pages of one level are created.
#[derive(Debug, Clone)]
pub struct ParentPage {
    pub id: i64,
    pub space: String,
}

/// A `ParentPage` as plain values.
pub struct ParentPageView {
    pub id: i64,
    pub space: Seq<char>,
}

impl View for ParentPage {
    type V = ParentPageView;

    open spec fn view(&self) -> ParentPageView {
        ParentPageView { id: self.id, space: self.space@ }
    }
}

impl From<Page> for ParentPage {
    fn from(page: Page) -> (parent: ParentPage) {
        ParentPage { id: page.id, space: page.space }
    }
}

impl vstd::std_specs::convert::FromSpecImpl<Page> for ParentPage {
    open spec fn obeys_from_spec() -> bool {
        true
    }

    open spec fn from_spec(page: Page) -> ParentPage {
        ParentPage { id: page.id, space: page.space }
    }
}

impl From<PageSummary> for ParentPage {
    fn from(page: PageSummary) -> (parent: ParentPage) {
        ParentPage { id: page.id, space: page.space }
    }
}

impl vstd::std_specs::convert::FromSpecImpl<PageSummary> for ParentPage {
    open spec fn obeys_from_spec() -> bool {
        true
    }

    open spec fn from_spec(page: PageSummary) -> ParentPage {
        ParentPage { id: page.id, space: page.space }
    }
}

/// What describes a file that is attached to a page.
#[derive(Debug, Clone)]
pub struct AttachmentRequest {
    pub file_name: String,
    pub content_type: String,
    pub title: String,
    pub comment: Option<String>,
}

/// An `AttachmentRequest` as plain values.
pub struct AttachmentRequestView {
    pub file_name: Seq<char>,
    pub content_type: Seq<char>,
    pub title: Seq<char>,
    pub comment: Option<Seq<char>>,
}

impl View for AttachmentRequest {
    type V = AttachmentRequestView;

    open spec fn view(&self) -> AttachmentRequestView {
        AttachmentRequestView {
            file_name: self.file_name@,
            content_type: self.content_type@,
            title: self.title@,
            comment: match self.comment {
                Some(c) => Some(c@),
                None => None,
            },
        }
    }
}

} // verus!
