//! What a pass does to the pages that no chapter claims.

use crate::book::BookItem;
use crate::config::ConfluenceConfig;
use crate::group::{chapter_titles, lemma_orphans_are_left, match_titles, unclaimed};
use crate::pages::{PageSummaryView, ParentPageView};
use crate::pass::{listed, pass_items, pass_level, removed_all, Held, Service};
use vstd::prelude::*;

verus! {

/// None of the pages that are left has the id of an orphan.
proof fn lemma_removed_all(pages: Seq<Held>, orphans: Seq<PageSummaryView>, at: int)
    requires
        0 <= at < orphans.len(),
    ensures
        forall|i: int|
            0 <= i < removed_all(pages, orphans).len() ==> (#[trigger] removed_all(
                pages,
                orphans,
            )[i]).id != orphans[at].id,
    decreases orphans.len(),
{
    let front = removed_all(pages, orphans.drop_last());
    let last = orphans.last().id;
    let keep = |page: Held| page.id != last;
    let left = removed_all(pages, orphans);
    assert(left == front.filter(keep));
    assert forall|i: int| 0 <= i < left.len() implies (#[trigger] left[i]).id
        != orphans[at].id by {
        front.lemma_filter_pred(keep, i);
        if at < orphans.len() - 1 {
            lemma_removed_all(pages, orphans.drop_last(), at);
            front.lemma_filter_contains_rev(keep, left[i]);
            let j = choose|j: int| 0 <= j < front.len() && front[j] == left[i];
            assert(front[j].id != orphans.drop_last()[at].id);
        }
    }
}

/// Every child of the level's parent page that the matching leaves over is
/// gone after the pass: none of the pages left has its id. So where two
/// children bear the title of one chapter, the one that the chapter did not
/// take is deleted.
pub proof fn lemma_left_over_is_deleted(
    service: Service,
    config: ConfluenceConfig,
    items: Seq<BookItem>,
    parent: ParentPageView,
    at: int,
)
    requires
        0 <= at < match_titles(
            chapter_titles(config, items),
            listed(service.pages, parent.id),
        ).remaining.len(),
    ensures
        forall|i: int|
            0 <= i < pass_level(service, config, items, parent).pages.len() ==> (
            #[trigger] pass_level(service, config, items, parent).pages[i]).id != match_titles(
                chapter_titles(config, items),
                listed(service.pages, parent.id),
            ).remaining[at].id,
{
    let matching = match_titles(chapter_titles(config, items), listed(service.pages, parent.id));
    let rendered = pass_items(service, config, items, parent, matching.existing);
    lemma_removed_all(rendered.pages, matching.remaining, at);
}

/// A child of the level's parent page whose title no chapter of the level
/// has is gone after the pass, in whatever order the chapters stand: none of
/// the pages left has its id.
pub proof fn lemma_orphan_is_deleted(
    service: Service,
    config: ConfluenceConfig,
    items: Seq<BookItem>,
    parent: ParentPageView,
    child: PageSummaryView,
)
    requires
        listed(service.pages, parent.id).contains(child),
        !chapter_titles(config, items).contains(child.title),
    ensures
        forall|i: int|
            0 <= i < pass_level(service, config, items, parent).pages.len() ==> (
            #[trigger] pass_level(service, config, items, parent).pages[i]).id != child.id,
{
    let titles = chapter_titles(config, items);
    let children = listed(service.pages, parent.id);
    let matching = match_titles(titles, children);
    let keep = unclaimed(titles);
    lemma_orphans_are_left(titles, children);
    let at = choose|at: int| 0 <= at < children.len() && children[at] == child;
    children.lemma_filter_contains(keep, at);
    matching.remaining.lemma_filter_contains_rev(keep, child);
    let k = choose|k: int| 0 <= k < matching.remaining.len() && matching.remaining[k] == child;
    let rendered = pass_items(service, config, items, parent, matching.existing);
    lemma_removed_all(rendered.pages, matching.remaining, k);
}

} // verus!
