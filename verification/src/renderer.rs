//! The renderer: what is decided from the settings and the version of the
//! service.

use crate::book::{BookItem, Chapter};
use crate::config::ConfluenceConfig;
use crate::content::{
    cdata_block, page_content, replaced, replaced_clusters, to_cdata, to_page_content,
};
use crate::error::Error;
use crate::group::{
    chapter_positions, chapter_titles, match_titles, render_group, summaries, GroupPlan,
};
use crate::markup::{
    from_parser, markdown_events, markdown_text, parse_markdown, serialize_markdown, MarkupEvent,
};
use crate::pages::{Page, PageSummary, ParentPage, ParentPageView, UpdatePage, UpdatePageView};
use crate::rewrite::{unread, ContentRewriter};
use crate::upload::{chapter_dir, chapter_dir_of};
use crate::version::{at_least_7_3_0, ServerVersion};
use std::path::PathBuf;
use vstd::prelude::*;
use vstd::string::StringExecFns;

verus! {

/// The name under which the book tool knows this renderer.
pub const RENDERER_NAME: &'static str = "confluence";

/// How a chapter gets the page that its content is then written to.
#[derive(Debug)]
pub enum StubRequest {
    /// The chapter has no page: one is created, without content.
    Create(UpdatePage),
    /// The chapter has the page of this id: it is fetched, for its version.
    Fetch(i64),
}

/// A `StubRequest` as plain values.
pub enum StubRequestView {
    Create(UpdatePageView),
    Fetch(i64),
}

impl View for StubRequest {
    type V = StubRequestView;

    open spec fn view(&self) -> StubRequestView {
        match self {
            StubRequest::Create(page) => StubRequestView::Create(page@),
            StubRequest::Fetch(id) => StubRequestView::Fetch(*id),
        }
    }
}

/// The first step for a chapter with the page title `title`. One that was
/// matched with a page has that page fetched; any other has a page created
/// below `parent`, with its title and no content.
pub open spec fn stub_for(
    title: Seq<char>,
    existing_page_id: Option<i64>,
    parent: ParentPageView,
) -> StubRequestView {
    match existing_page_id {
        None => StubRequestView::Create(
            UpdatePageView {
                id: None,
                space: parent.space,
                title,
                content: Seq::empty(),
                version: None,
                parent_id: Some(parent.id),
            },
        ),
        Some(id) => StubRequestView::Fetch(id),
    }
}

/// The page as it is stored for a chapter with the page title `title`, below
/// `parent`: under the id and the version of the page that was fetched or
/// created for it, with `content`.
pub open spec fn update_of(
    title: Seq<char>,
    page_id: i64,
    page_version: i32,
    parent: ParentPageView,
    content: Seq<char>,
) -> UpdatePageView {
    UpdatePageView {
        id: Some(page_id),
        space: parent.space,
        title,
        content,
        version: Some(page_version),
        parent_id: Some(parent.id),
    }
}

/// The line that reports a stored page.
pub open spec fn summary_of(updated: bool, page: Page) -> Seq<char> {
    (if updated {
        "Updated"@
    } else {
        "Created"@
    }) + " '"@ + page.title@ + "' "@ + page.url@
}

/// What decides how the book is written to the remote service: the version
/// that the service reported at the start of the session, and the settings.
#[derive(Debug, Clone)]
pub struct InternalRenderer {
    pub server_version: ServerVersion,
    pub config: ConfluenceConfig,
}

impl InternalRenderer {
    /// Whether the service stores characters of four bytes.
    pub open spec fn extended_text(self) -> bool {
        at_least_7_3_0(self.server_version@)
    }

    /// Whether the service takes emoji and other characters of four bytes.
    pub fn supports_emoji(&self) -> (supported: bool)
        ensures
            supported == self.extended_text(),
    {
        self.server_version.supports_extended_text()
    }

    /// The CDATA block that carries `s`.
    pub fn to_cdata(&self, s: &str) -> (block: String)
        ensures
            block@ == cdata_block(s@, self.extended_text()),
    {
        to_cdata(s, self.supports_emoji())
    }

    /// The content of a page that shows `markdown`.
    pub fn to_page_content(&self, markdown: &str) -> (content: String)
        ensures
            content@ == page_content(markdown@, self.extended_text()),
    {
        to_page_content(markdown, self.supports_emoji())
    }

    /// Plans one level of the book: see `render_group`.
    pub fn render_group<E>(
        &self,
        items: &Vec<BookItem>,
        listed: Result<Vec<PageSummary>, E>,
    ) -> (planned: Result<GroupPlan, E>)
        ensures
            match listed {
                Ok(children) => {
                    let matching = match_titles(
                        chapter_titles(self.config, items@),
                        summaries(children@),
                    );
                    &&& planned matches Ok(plan)
                    &&& plan.positions() == chapter_positions(items@)
                    &&& plan.existing() == matching.existing
                    &&& summaries(plan.orphans@) == matching.remaining
                },
                Err(e) => planned == Err::<GroupPlan, E>(e),
            },
    {
        render_group(&self.config, items, listed)
    }

    /// The first step for a chapter: see `stub_for`.
    pub fn get_existing_page(
        &self,
        chapter: &Chapter,
        existing_page_id: Option<i64>,
        parent: &ParentPage,
    ) -> (request: StubRequest)
        ensures
            request@ == stub_for(self.config.title_of(chapter.name@), existing_page_id, parent@),
    {
        match existing_page_id {
            None => StubRequest::Create(
                UpdatePage {
                    id: None,
                    space: parent.space.clone(),
                    title: self.config.chapter_title(chapter),
                    content: String::new(),
                    version: None,
                    parent_id: Some(parent.id),
                },
            ),
            Some(id) => StubRequest::Fetch(id),
        }
    }

    /// Begins the content of a chapter's page: the chapter's markdown is
    /// parsed, and its images are then rewritten for the page
    /// `existing_page`, relative to the chapter's directory below
    /// `root_path`.
    pub fn rewrite_images<'a>(
        &self,
        chapter: &'a Chapter,
        existing_page: &Page,
        root_path: &PathBuf,
    ) -> (rewriter: ContentRewriter<'a>)
        ensures
            rewriter.state() == unread(markdown_events(chapter.content@, false)),
            rewriter.page_id() == existing_page.id,
            rewriter.dir() == chapter_dir_of(*root_path, chapter.path),
    {
        let events = parse_markdown(chapter.content.as_str());
        ContentRewriter::new(events, chapter_dir(root_path, &chapter.path), existing_page.id)
    }

    /// The page to store for a chapter, from what the serialiser made of its
    /// rewritten events: the content around the markdown, under the id and
    /// the version of `existing_page`; or the serialiser's error.
    pub fn page_update(
        &self,
        chapter: &Chapter,
        existing_page: &Page,
        parent: &ParentPage,
        serialized: Result<String, String>,
    ) -> (update: Result<UpdatePage, Error>)
        ensures
            match serialized {
                Ok(markdown) => update matches Ok(page) && page@ == update_of(
                    self.config.title_of(chapter.name@),
                    existing_page.id,
                    existing_page.version,
                    parent@,
                    page_content(markdown@, self.extended_text()),
                ),
                Err(message) => update matches Err(Error::Error(text)) && text@
                    == "Markdown serialization failed: "@ + message@,
            },
    {
        match serialized {
            Ok(markdown) => Ok(
                UpdatePage {
                    id: Some(existing_page.id),
                    space: parent.space.clone(),
                    title: self.config.chapter_title(chapter),
                    content: self.to_page_content(markdown.as_str()),
                    version: Some(existing_page.version),
                    parent_id: Some(parent.id),
                },
            ),
            Err(message) => Err(
                Error::Error(
                    "Markdown serialization failed: ".to_owned().concat(message.as_str()),
                ),
            ),
        }
    }

    /// The clusters of `markdown` that `to_cdata` replaces for this service,
    /// in order.
    pub fn replaced_clusters(&self, markdown: &str) -> (wide: Vec<String>)
        ensures
            wide.deep_view() == replaced(markdown@, self.extended_text()),
    {
        replaced_clusters(markdown, self.supports_emoji())
    }

    /// Ends the content of a chapter's page: the rewritten events, which are
    /// those of the chapter but for the addresses of images, are serialised
    /// and made into the page to store. With the page come the clusters that
    /// were replaced in its content, for the caller to report.
    pub fn create_page_content(
        &self,
        chapter: &Chapter,
        existing_page: &Page,
        parent: &ParentPage,
        events: Vec<MarkupEvent<'_>>,
    ) -> (update: Result<(UpdatePage, Vec<String>), Error>)
        requires
            from_parser(events@),
        ensures
            match markdown_text(events@) {
                Ok(markdown) => {
                    &&& update matches Ok((page, wide))
                    &&& page@ == update_of(
                        self.config.title_of(chapter.name@),
                        existing_page.id,
                        existing_page.version,
                        parent@,
                        page_content(markdown, self.extended_text()),
                    )
                    &&& wide.deep_view() == replaced(markdown, self.extended_text())
                },
                Err(message) => update matches Err(Error::Error(text)) && text@
                    == "Markdown serialization failed: "@ + message,
            },
    {
        let serialized = serialize_markdown(events);
        let wide = match &serialized {
            Ok(markdown) => self.replaced_clusters(markdown.as_str()),
            Err(_) => Vec::new(),
        };
        match self.page_update(chapter, existing_page, parent, serialized) {
            Ok(page) => Ok((page, wide)),
            Err(e) => Err(e),
        }
    }
}

/// What a run does once the settings are read.
#[derive(Debug)]
pub enum Startup {
    /// The renderer is switched off: nothing is sent.
    Disabled,
    /// The book is rendered, after the warning where there is one.
    Render { warning: Option<String> },
}

/// The warning for a book tool of another version than the one this renderer
/// was built for.
pub open spec fn version_warning(built_for: Seq<char>, called_from: Seq<char>) -> Seq<char> {
    "Warning: The "@ + RENDERER_NAME@ + " plugin was built against version "@ + built_for
        + " of mdbook, but we're being called from version "@ + called_from
}

/// Decides what a run does: nothing where the renderer is not enabled;
/// otherwise it renders, with a warning where the book tool that calls is not
/// of the version `built_for`.
pub fn startup(config: &ConfluenceConfig, built_for: &str, called_from: &str) -> (plan: Startup)
    ensures
        !config.enabled ==> plan is Disabled,
        config.enabled ==> ({
            &&& plan matches Startup::Render { warning }
            &&& match warning {
                Some(text) => called_from@ != built_for@ && text@ == version_warning(
                    built_for@,
                    called_from@,
                ),
                None => called_from@ == built_for@,
            }
        }),
{
    if !config.enabled {
        Startup::Disabled
    } else if called_from.to_owned() == built_for.to_owned() {
        Startup::Render { warning: None }
    } else {
        let mut text = "Warning: The ".to_owned();
        text.append(RENDERER_NAME);
        text.append(" plugin was built against version ");
        text.append(built_for);
        text.append(" of mdbook, but we're being called from version ");
        text.append(called_from);
        Startup::Render { warning: Some(text) }
    }
}

/// The line that reports the page `stored` of a chapter: updated where the
/// chapter had a page, created where it had none.
pub fn page_summary(existing_page_id: Option<i64>, stored: &Page) -> (line: String)
    ensures
        line@ == summary_of(existing_page_id is Some, *stored),
{
    let mut line = if existing_page_id.is_some() {
        "Updated".to_owned()
    } else {
        "Created".to_owned()
    };
    line.append(" '");
    line.append(stored.title.as_str());
    line.append("' ");
    line.append(stored.url.as_str());
    line
}

} // verus!
