//! One chapter on its way to its page, stage by stage.

use crate::book::Chapter;
use crate::error::Error;
use crate::group::{lemma_known_chapter_is_found, lemma_match_without_children, match_titles};
use crate::markup::{all_alike, markdown_events, markdown_text};
use crate::content::{page_content, replaced};
use crate::pages::{Page, PageSummaryView, ParentPage, ParentPageView, UpdatePage};
use crate::renderer::{
    page_summary, stub_for, summary_of, update_of, InternalRenderer, StubRequest,
    StubRequestView,
};
use crate::rewrite::{
    advance, all_events, lemma_advance_changes_nothing, lemma_failed_upload_changes_nothing,
    lemma_upload_moves_one_image, resolved, unread, ContentRewriter, RewriteState, RewriteStep,
};
use crate::upload::{chapter_dir_of, request_for, uploaded_url, UploadRequest};
use std::path::PathBuf;
use vstd::prelude::*;

verus! {

/// One chapter to bring to the remote service: what renders it, the page
/// above it, the page it already has, and the book's source directory.
#[derive(Clone, Copy)]
pub struct PageTask<'a> {
    pub renderer: &'a InternalRenderer,
    pub chapter: &'a Chapter,
    pub parent: &'a ParentPage,
    pub existing_page_id: Option<i64>,
    pub root_path: &'a PathBuf,
}

/// A chapter whose page is there and whose images are being rewritten.
pub struct PageContent<'a> {
    task: PageTask<'a>,
    page: Page,
    rewriter: ContentRewriter<'a>,
}

/// A chapter whose page is being stored.
pub struct PageStore<'a> {
    task: PageTask<'a>,
    replaced: Vec<String>,
}

/// A chapter whose page is stored and whose own chapters are being rendered.
pub struct PageChildren {
    summary: String,
}

/// What a chapter needs next on the way to its stored page.
pub enum PageStep<'a> {
    /// An image is to be uploaded; `PageContent::uploaded` takes the answer.
    Upload(UploadRequest, PageContent<'a>),
    /// The page is to be stored; `PageStore::stored` takes the answer.
    Store(UpdatePage, PageStore<'a>),
    /// The chapter failed. Nothing below it is rendered.
    Failed(Error),
}

impl<'a> PageContent<'a> {
    /// The task that the content belongs to.
    pub closed spec fn task(self) -> PageTask<'a> {
        self.task
    }

    /// The page that the content is made for.
    pub closed spec fn page(self) -> Page {
        self.page
    }

    /// Where the rewriting stands.
    pub closed spec fn state(self) -> RewriteState<'a> {
        self.rewriter.state()
    }

    /// The rewriter works for the page, on the events of the chapter, with
    /// the images in the chapter's directory.
    #[verifier::type_invariant]
    spec fn rewrites_for_page(self) -> bool {
        &&& self.rewriter.page_id() == self.page.id
        &&& self.rewriter.dir() == chapter_dir_of(*self.task.root_path, self.task.chapter.path)
        &&& all_alike(
            all_events(self.rewriter.state()),
            markdown_events(self.task.chapter.content@, false),
        )
    }
}

impl<'a> PageStore<'a> {
    /// The task whose page is stored.
    pub closed spec fn task(self) -> PageTask<'a> {
        self.task
    }

    /// The clusters that were replaced in the page's content.
    pub closed spec fn replaced(self) -> Seq<Seq<char>> {
        self.replaced.deep_view()
    }

    /// The clusters that were replaced in the page's content, in order, for
    /// the caller to report.
    pub fn replaced_clusters(&self) -> (wide: &Vec<String>)
        ensures
            wide.deep_view() == self.replaced(),
    {
        &self.replaced
    }
}

impl PageChildren {
    /// The line that reports the stored page.
    pub closed spec fn summary(self) -> Seq<char> {
        self.summary@
    }
}

/// Whether `step` is what follows for the chapter of `task` with the page
/// `page` once the rewriting, from `before`, has read on. An image that
/// needs an upload is asked for. Without one all events are written: they are
/// serialised, and the page is stored with the content around them, with the
/// clusters that were replaced in it told; where the serialiser fails, the
/// chapter fails.
pub open spec fn follows<'a>(
    step: PageStep<'a>,
    task: PageTask<'a>,
    page: Page,
    before: RewriteState<'a>,
) -> bool {
    let state = advance(before);
    match state.awaiting {
        Some(tag) => {
            &&& step matches PageStep::Upload(request, content)
            &&& content.task() == task
            &&& content.page() == page
            &&& content.state() == state
            &&& request@ == request_for(
                tag.title@,
                tag.url@,
                chapter_dir_of(*task.root_path, task.chapter.path),
                page.id,
            )
        },
        None => match markdown_text(state.written) {
            Ok(markdown) => {
                &&& step matches PageStep::Store(update, store)
                &&& store.task() == task
                &&& store.replaced() == replaced(markdown, task.renderer.extended_text())
                &&& update@ == update_of(
                    task.renderer.config.title_of(task.chapter.name@),
                    page.id,
                    page.version,
                    task.parent@,
                    page_content(markdown, task.renderer.extended_text()),
                )
            },
            Err(message) => {
                &&& step matches PageStep::Failed(Error::Error(text))
                &&& text@ == "Markdown serialization failed: "@ + message
            },
        },
    }
}

/// Below a page without children every chapter of the level is new: a page
/// is created for it below that page, and no page is deleted.
pub proof fn lemma_new_level_is_created(titles: Seq<Seq<char>>, parent: ParentPageView, i: int)
    requires
        0 <= i < titles.len(),
    ensures
        match_titles(titles, Seq::empty()).existing.len() == titles.len(),
        match_titles(titles, Seq::empty()).remaining.len() == 0,
        stub_for(
            titles[i],
            match_titles(titles, Seq::empty()).existing[i],
            parent,
        ) matches StubRequestView::Create(page) && page.id is None && page.parent_id == Some(
            parent.id,
        ) && page.title == titles[i],
{
    lemma_match_without_children(titles);
}

/// The chapters of the level below a stored page are created below that page:
/// a page never comes before the page above it, whose id it bears as its
/// parent.
pub proof fn lemma_child_is_created_below_stored_page(stored: Page, titles: Seq<Seq<char>>, i: int)
    requires
        0 <= i < titles.len(),
    ensures
        stub_for(
            titles[i],
            match_titles(titles, Seq::empty()).existing[i],
            <ParentPage as vstd::std_specs::convert::FromSpec<Page>>::from_spec(stored)@,
        ) matches StubRequestView::Create(page) && page.parent_id == Some(stored.id),
{
    lemma_match_without_children(titles);
}

/// A chapter whose page is found again has that page fetched, not made anew.
pub proof fn lemma_known_chapter_is_fetched(
    titles: Seq<Seq<char>>,
    children: Seq<PageSummaryView>,
    parent: ParentPageView,
    i: int,
    j: int,
)
    requires
        titles.no_duplicates(),
        0 <= i < titles.len(),
        0 <= j < children.len(),
        children[j].title == titles[i],
        forall|k: int| 0 <= k < children.len() && k != j ==> (#[trigger] children[k]).title
            != titles[i],
    ensures
        stub_for(titles[i], match_titles(titles, children).existing[i], parent)
            == StubRequestView::Fetch(children[j].id),
{
    lemma_known_chapter_is_found(titles, children, i, j);
}

/// The page that is stored for a chapter is the page that was fetched or
/// created for it: it has that page's id and version, and it stands below the
/// chapter's parent page. So a chapter that has a page is updated, never made
/// anew.
pub proof fn lemma_store_keeps_page<'a>(
    step: PageStep<'a>,
    task: PageTask<'a>,
    page: Page,
    before: RewriteState<'a>,
)
    requires
        follows(step, task, page, before),
        step is Store,
    ensures
        step->Store_0@.id == Some(page.id),
        step->Store_0@.version == Some(page.version),
        step->Store_0@.parent_id == Some(task.parent.id),
        step->Store_0@.title == task.renderer.config.title_of(task.chapter.name@),
{
}

/// Reads on and makes the step that follows.
fn next_step<'a>(task: PageTask<'a>, page: Page, rewriter: ContentRewriter<'a>) -> (step:
    PageStep<'a>)
    requires
        rewriter.page_id() == page.id,
        rewriter.dir() == chapter_dir_of(*task.root_path, task.chapter.path),
        all_alike(all_events(rewriter.state()), markdown_events(task.chapter.content@, false)),
    ensures
        follows(step, task, page, rewriter.state()),
{
    let mut rewriter = rewriter;
    proof {
        lemma_advance_changes_nothing(rewriter.state());
    }
    match rewriter.next_upload() {
        RewriteStep::Upload(request) => PageStep::Upload(
            request,
            PageContent { task, page, rewriter },
        ),
        RewriteStep::Done => {
            assert(all_events(rewriter.state()) =~= rewriter.state().written);
            let events = rewriter.into_events();
            match task.renderer.create_page_content(task.chapter, &page, task.parent, events) {
                Ok((update, replaced)) => PageStep::Store(update, PageStore { task, replaced }),
                Err(e) => PageStep::Failed(e),
            }
        },
    }
}

impl InternalRenderer {
    /// The task of bringing `chapter` to a page below `parent`.
    pub fn render_page<'a>(
        &'a self,
        chapter: &'a Chapter,
        parent: &'a ParentPage,
        existing_page_id: Option<i64>,
        root_path: &'a PathBuf,
    ) -> (task: PageTask<'a>)
        ensures
            task == (PageTask { renderer: self, chapter, parent, existing_page_id, root_path }),
    {
        PageTask { renderer: self, chapter, parent, existing_page_id, root_path }
    }
}

impl<'a> PageTask<'a> {
    /// How the chapter gets its page: see `stub_for`.
    pub fn request(&self) -> (request: StubRequest)
        ensures
            request@ == stub_for(
                self.renderer.config.title_of(self.chapter.name@),
                self.existing_page_id,
                self.parent@,
            ),
    {
        self.renderer.get_existing_page(self.chapter, self.existing_page_id, self.parent)
    }

    /// Takes the answer to `request`. Without a page the chapter fails with
    /// the answer's error. With one, the chapter's markdown is parsed and the
    /// rewriting of its images begins.
    pub fn stub(self, answer: Result<Page, Error>) -> (step: PageStep<'a>)
        ensures
            match answer {
                Ok(page) => follows(
                    step,
                    self,
                    page,
                    unread(markdown_events(self.chapter.content@, false)),
                ),
                Err(e) => step == PageStep::Failed(e),
            },
    {
        match answer {
            Ok(page) => {
                let rewriter = self.renderer.rewrite_images(self.chapter, &page, self.root_path);
                assert(all_events(rewriter.state()) =~= markdown_events(
                    self.chapter.content@,
                    false,
                ));
                next_step(self, page, rewriter)
            },
            Err(e) => PageStep::Failed(e),
        }
    }
}

impl<'a> PageContent<'a> {
    /// Takes the answer to the upload that was asked for: the address of the
    /// uploaded file where the upload gave one. The image is rewritten as
    /// `resolved` says, and the rewriting reads on.
    pub fn uploaded(self, answer: Result<Option<String>, Error>) -> (step: PageStep<'a>)
        ensures
            follows(
                step,
                self.task(),
                self.page(),
                resolved(
                    self.state(),
                    match answer {
                        Ok(Some(address)) => Some(address),
                        _ => None,
                    },
                ),
            ),
    {
        proof {
            use_type_invariant(&self);
        }
        let PageContent { task, page, rewriter } = self;
        let mut rewriter = rewriter;
        let ghost before = rewriter.state();
        let outcome = uploaded_url(answer);
        proof {
            if before.awaiting is Some {
                if outcome is Some {
                    lemma_upload_moves_one_image(before, outcome->0);
                } else {
                    lemma_failed_upload_changes_nothing(before);
                }
            }
        }
        rewriter.resolve(outcome);
        next_step(task, page, rewriter)
    }
}

impl<'a> PageStore<'a> {
    /// Takes the answer to the store. A page that was not stored fails the
    /// chapter. A stored page is the parent of the chapter's own chapters,
    /// which are rendered next.
    pub fn stored(self, answer: Result<Page, Error>) -> (next: Result<
        (ParentPage, PageChildren),
        Error,
    >)
        ensures
            match answer {
                Ok(page) => {
                    &&& next matches Ok((parent, children))
                    &&& parent == <ParentPage as vstd::std_specs::convert::FromSpec<
                        Page,
                    >>::from_spec(page)
                    &&& children.summary() == summary_of(
                        self.task().existing_page_id is Some,
                        page,
                    )
                },
                Err(e) => next matches Err(error) && error == e,
            },
    {
        match answer {
            Ok(page) => {
                let summary = page_summary(self.task.existing_page_id, &page);
                Ok((ParentPage::from(page), PageChildren { summary }))
            },
            Err(e) => Err(e),
        }
    }
}

impl PageChildren {
    /// Takes the outcome of rendering the chapter's own chapters: the line
    /// that reports the chapter's page, or the error of the level below.
    pub fn rendered(self, answer: Result<(), Error>) -> (outcome: Result<String, Error>)
        ensures
            match answer {
                Ok(_) => outcome matches Ok(line) && line@ == self.summary(),
                Err(e) => outcome matches Err(error) && error == e,
            },
    {
        match answer {
            Ok(_) => Ok(self.summary),
            Err(e) => Err(e),
        }
    }
}

} // verus!
