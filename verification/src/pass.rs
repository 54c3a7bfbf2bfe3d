//! One pass over the book, seen from the remote service.
//!
//! The library never talks to the service: its caller does, step by step, as
//! `group::render_group` and `page::PageTask` tell it. This module says what
//! those steps add up to: `pass_level` is what a level of the book, with the
//! levels below it, leaves of the pages of the service. It holds where the
//! service does what it is asked, where the markdown of every chapter can be
//! written, and where the chapters of a level are rendered one after another.
//! The content of the pages plays no part in it.
//!
//! The modules below show what a pass does to a book that has no pages yet
//! (`first_pass`), to a book whose pages are all there (`known_book`), to both
//! in a row (`second_pass`), and to the pages that no chapter claims
//! (`orphans`).

pub mod first_pass;
pub mod known_book;
pub mod orphans;
pub mod second_pass;

use crate::book::{BookItem, Chapter};
use crate::config::ConfluenceConfig;
use crate::group::{chapter_titles, match_titles};
use crate::pages::{PageSummaryView, ParentPageView, UpdatePageView};
use crate::renderer::{stub_for, update_of, StubRequestView};
use vstd::prelude::*;

verus! {

/// How many chapters stand among `items` and below them.
pub open spec fn chapter_total(items: Seq<BookItem>) -> nat
    decreases items, 1nat,
{
    if items.len() == 0 {
        0
    } else {
        chapter_total(items.drop_last()) + match items.last() {
            BookItem::Chapter(chapter) => chapters_in(chapter),
            BookItem::Separator => 0,
        }
    }
}

/// How many chapters `chapter` is, with those below it.
pub open spec fn chapters_in(chapter: Chapter) -> nat
    decreases chapter, 0nat,
{
    1 + chapter_total(chapter.sub_items@)
}

/// A page as the remote service holds it.
pub struct Held {
    pub id: i64,
    pub parent: i64,
    pub space: Seq<char>,
    pub title: Seq<char>,
    pub version: i32,
}

/// A remote service that does what it is asked: the pages it holds, in the
/// order in which it lists them, how many pages it has created, and the id
/// that it gives to each page it creates.
pub struct Service {
    pub pages: Seq<Held>,
    pub made: nat,
    pub fresh: spec_fn(nat) -> i64,
}

/// The id that the service gives to the page it creates after `made` others.
pub open spec fn fresh_id(fresh: spec_fn(nat) -> i64, made: nat) -> i64 {
    fresh(made)
}

/// How the service lists a page.
pub open spec fn summary_of_held(page: Held) -> PageSummaryView {
    PageSummaryView { id: page.id, space: page.space, title: page.title, url: Seq::empty() }
}

/// The children of the page `parent`, as the service lists them.
pub open spec fn listed(pages: Seq<Held>, parent: i64) -> Seq<PageSummaryView>
    decreases pages.len(),
{
    if pages.len() == 0 {
        Seq::empty()
    } else if pages.last().parent == parent {
        listed(pages.drop_last(), parent).push(summary_of_held(pages.last()))
    } else {
        listed(pages.drop_last(), parent)
    }
}

/// The page with the id `id`.
pub open spec fn found(pages: Seq<Held>, id: i64) -> Option<Held>
    decreases pages.len(),
{
    if pages.len() == 0 {
        None
    } else if pages.last().id == id {
        Some(pages.last())
    } else {
        found(pages.drop_last(), id)
    }
}

/// The pages after an update of the page `id` that hands back `version`:
/// where that is the page's version the page gets the title, the space and
/// the parent, and its version goes up by one; otherwise the service refuses.
pub open spec fn updated(
    pages: Seq<Held>,
    id: i64,
    version: i32,
    title: Seq<char>,
    parent: ParentPageView,
) -> Option<Seq<Held>>
    decreases pages.len(),
{
    if pages.len() == 0 {
        None
    } else if pages.last().id == id {
        if pages.last().version == version && version < i32::MAX {
            Some(
                pages.drop_last().push(
                    Held {
                        id,
                        parent: parent.id,
                        space: parent.space,
                        title,
                        version: (version + 1) as i32,
                    },
                ),
            )
        } else {
            None
        }
    } else {
        match updated(pages.drop_last(), id, version, title, parent) {
            Some(front) => Some(front.push(pages.last())),
            None => None,
        }
    }
}

/// What the service makes of a store, and the page it answers with. A page
/// without id and version is created, with the next id of the service; one
/// with both is updated. Anything else the service refuses.
pub open spec fn stored(service: Service, page: UpdatePageView) -> Option<(Service, Held)> {
    match (page.id, page.version, page.parent_id) {
        (None, None, Some(parent)) => {
            let made = Held {
                id: fresh_id(service.fresh, service.made),
                parent,
                space: page.space,
                title: page.title,
                version: 1,
            };
            Some(
                (
                    Service {
                        pages: service.pages.push(made),
                        made: service.made + 1,
                        fresh: service.fresh,
                    },
                    made,
                ),
            )
        },
        (Some(id), Some(version), Some(parent)) => {
            let below = ParentPageView { id: parent, space: page.space };
            match updated(service.pages, id, version, page.title, below) {
                Some(pages) => Some(
                    (
                        Service { pages, made: service.made, fresh: service.fresh },
                        Held {
                            id,
                            parent,
                            space: page.space,
                            title: page.title,
                            version: (version + 1) as i32,
                        },
                    ),
                ),
                None => None,
            }
        },
        _ => None,
    }
}

/// The pages without those of the id `id`.
pub open spec fn removed(pages: Seq<Held>, id: i64) -> Seq<Held> {
    pages.filter(|page: Held| page.id != id)
}

/// The pages without the orphans.
pub open spec fn removed_all(pages: Seq<Held>, orphans: Seq<PageSummaryView>) -> Seq<Held>
    decreases orphans.len(),
{
    if orphans.len() == 0 {
        pages
    } else {
        removed(removed_all(pages, orphans.drop_last()), orphans.last().id)
    }
}

/// What one chapter, with the chapters below it, leaves of the service: the
/// chapter's page is created or fetched as `stub_for` says and stored as
/// `update_of` says, and then the level below it is passed, below the stored
/// page. A chapter whose page is not there, or is not stored, changes nothing
/// more.
pub open spec fn pass_page(
    service: Service,
    config: ConfluenceConfig,
    chapter: Chapter,
    parent: ParentPageView,
    existing_page_id: Option<i64>,
) -> Service
    decreases chapter, 0nat,
{
    let title = config.title_of(chapter.name@);
    let stub = match stub_for(title, existing_page_id, parent) {
        StubRequestView::Create(new_page) => stored(service, new_page),
        StubRequestView::Fetch(id) => match found(service.pages, id) {
            Some(page) => Some((service, page)),
            None => None,
        },
    };
    match stub {
        None => service,
        Some((after, page)) => {
            let update = update_of(title, page.id, page.version, parent, Seq::empty());
            match stored(after, update) {
                None => after,
                Some((kept, saved)) => pass_level(
                    kept,
                    config,
                    chapter.sub_items@,
                    ParentPageView { id: saved.id, space: saved.space },
                ),
            }
        },
    }
}

/// What the chapters among `items` leave of the service, one after another,
/// where `existing` holds for each chapter of the level the page it was
/// matched with.
pub open spec fn pass_items(
    service: Service,
    config: ConfluenceConfig,
    items: Seq<BookItem>,
    parent: ParentPageView,
    existing: Seq<Option<i64>>,
) -> Service
    decreases items, 1nat,
{
    if items.len() == 0 {
        service
    } else {
        let before = pass_items(service, config, items.drop_last(), parent, existing);
        match items.last() {
            BookItem::Chapter(chapter) => pass_page(
                before,
                config,
                chapter,
                parent,
                existing[chapter_titles(config, items.drop_last()).len() as int],
            ),
            BookItem::Separator => before,
        }
    }
}

/// What one level of the book, with the levels below it, leaves of the
/// service: the children of `parent` are listed and matched with the
/// chapters, the chapters are rendered, and the children that no chapter took
/// are deleted.
pub open spec fn pass_level(
    service: Service,
    config: ConfluenceConfig,
    items: Seq<BookItem>,
    parent: ParentPageView,
) -> Service
    decreases items, 2nat,
{
    let matching = match_titles(
        chapter_titles(config, items),
        listed(service.pages, parent.id),
    );
    let rendered = pass_items(service, config, items, parent, matching.existing);
    Service {
        pages: removed_all(rendered.pages, matching.remaining),
        made: rendered.made,
        fresh: rendered.fresh,
    }
}

} // verus!
