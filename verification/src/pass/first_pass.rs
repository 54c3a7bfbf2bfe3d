//! A pass over a book none of whose chapters has a page.

use crate::book::{BookItem, Chapter};
use crate::config::ConfluenceConfig;
use crate::group::{chapter_titles, lemma_match_without_children, match_titles};
use crate::pages::ParentPageView;
use crate::pass::{
    chapter_total, chapters_in, fresh_id, listed, pass_items, pass_level, pass_page, stored,
    updated, Held, Service,
};
use vstd::prelude::*;

verus! {

/// The pages of the chapters among `items` and below them, as a pass makes
/// them where none of them was there before: the pages of a chapter follow
/// those of the chapters before it.
pub open spec fn planted(
    config: ConfluenceConfig,
    items: Seq<BookItem>,
    parent: ParentPageView,
    fresh: spec_fn(nat) -> i64,
    made: nat,
) -> Seq<Held>
    decreases items, 1nat,
{
    if items.len() == 0 {
        Seq::empty()
    } else {
        planted(config, items.drop_last(), parent, fresh, made) + match items.last() {
            BookItem::Chapter(chapter) => planted_page(
                config,
                chapter,
                parent,
                fresh,
                made + chapter_total(items.drop_last()),
            ),
            BookItem::Separator => Seq::empty(),
        }
    }
}

/// The page of a new chapter, and after it the pages of the chapters below
/// it: the chapter's page is a child of `parent`, was stored once since it was
/// created, and is the parent of the pages of the level below.
pub open spec fn planted_page(
    config: ConfluenceConfig,
    chapter: Chapter,
    parent: ParentPageView,
    fresh: spec_fn(nat) -> i64,
    made: nat,
) -> Seq<Held>
    decreases chapter, 0nat,
{
    seq![
        Held {
            id: fresh_id(fresh, made),
            parent: parent.id,
            space: parent.space,
            title: config.title_of(chapter.name@),
            version: 2,
        },
    ] + planted(
        config,
        chapter.sub_items@,
        ParentPageView { id: fresh_id(fresh, made), space: parent.space },
        fresh,
        made + 1,
    )
}

/// Whether the ids that the service gives to the pages it creates after
/// `from` others and before it has created `end` differ from one another.
pub open spec fn never_twice(fresh: spec_fn(nat) -> i64, from: nat, end: nat) -> bool {
    forall|a: nat, b: nat|
        from <= a < b < end ==> #[trigger] fresh_id(fresh, a) != #[trigger] fresh_id(fresh, b)
}

/// Whether no page of the service has, as its id or as its parent, an id that
/// the service gives from now on, before it has created `end` pages.
pub open spec fn unused(service: Service, end: nat) -> bool {
    forall|n: nat, i: int|
        #![trigger fresh_id(service.fresh, n), service.pages[i]]
        service.made <= n < end && 0 <= i < service.pages.len() ==> service.pages[i].id
            != fresh_id(service.fresh, n) && service.pages[i].parent != fresh_id(service.fresh, n)
}

/// Whether `id` is none of the ids that the service gives from now on, before
/// it has created `end` pages.
pub open spec fn not_to_come(service: Service, id: i64, end: nat) -> bool {
    forall|n: nat| service.made <= n < end ==> #[trigger] fresh_id(service.fresh, n) != id
}

/// Where no page is a child of `parent`, none is listed.
pub(crate) proof fn lemma_listed_none(pages: Seq<Held>, parent: i64)
    requires
        forall|i: int| 0 <= i < pages.len() ==> (#[trigger] pages[i]).parent != parent,
    ensures
        listed(pages, parent) =~= Seq::empty(),
    decreases pages.len(),
{
    if pages.len() > 0 {
        assert(pages[pages.len() - 1].parent != parent);
        assert forall|i: int| 0 <= i < pages.drop_last().len() implies (
        #[trigger] pages.drop_last()[i]).parent != parent by {
            assert(pages[i].parent != parent);
        }
        lemma_listed_none(pages.drop_last(), parent);
    }
}

/// A new chapter below a page: its page and the pages below it are planted.
proof fn lemma_new_page(
    service: Service,
    config: ConfluenceConfig,
    chapter: Chapter,
    parent: ParentPageView,
    end: nat,
)
    requires
        service.made + chapters_in(chapter) <= end,
        never_twice(service.fresh, service.made, end),
        unused(service, end),
        not_to_come(service, parent.id, end),
    ensures
        pass_page(service, config, chapter, parent, None).pages == service.pages + planted_page(
            config,
            chapter,
            parent,
            service.fresh,
            service.made,
        ),
        pass_page(service, config, chapter, parent, None).made == service.made + chapters_in(
            chapter,
        ),
        pass_page(service, config, chapter, parent, None).fresh == service.fresh,
        unused(pass_page(service, config, chapter, parent, None), end),
    decreases chapter, 0nat,
{
    let title = config.title_of(chapter.name@);
    let id = fresh_id(service.fresh, service.made);
    let page = Held { id, parent: parent.id, space: parent.space, title, version: 1 };
    let kept = Held { id, parent: parent.id, space: parent.space, title, version: 2 };
    let created = service.pages.push(page);
    assert(created.drop_last() =~= service.pages);
    assert(updated(created, id, 1, title, parent) == Some(service.pages.push(kept)));
    let after = Service {
        pages: service.pages.push(kept),
        made: service.made + 1,
        fresh: service.fresh,
    };
    let below = ParentPageView { id, space: parent.space };
    assert(chapters_in(chapter) == 1 + chapter_total(chapter.sub_items@));
    assert(unused(after, end)) by {
        assert forall|n: nat, i: int|
            #![trigger fresh_id(after.fresh, n), after.pages[i]]
            after.made <= n < end && 0 <= i < after.pages.len() implies after.pages[i].id
            != fresh_id(after.fresh, n) && after.pages[i].parent != fresh_id(after.fresh, n) by {
            if i < service.pages.len() {
                assert(after.pages[i] == service.pages[i]);
            } else {
                assert(fresh_id(service.fresh, service.made) != fresh_id(service.fresh, n));
            }
        }
    }
    assert(not_to_come(after, id, end)) by {
        assert forall|n: nat| after.made <= n < end implies #[trigger] fresh_id(after.fresh, n)
            != id by {
            assert(fresh_id(service.fresh, service.made) != fresh_id(service.fresh, n));
        }
    }
    assert forall|i: int| 0 <= i < after.pages.len() implies (#[trigger] after.pages[i]).parent
        != id by {
        if i < service.pages.len() {
            assert(after.pages[i] == service.pages[i]);
            assert(service.pages[i].parent != fresh_id(service.fresh, service.made));
        } else {
            assert(fresh_id(service.fresh, service.made) != parent.id);
        }
    }
    lemma_listed_none(after.pages, id);
    lemma_new_level(after, config, chapter.sub_items@, below, end);
    assert(service.pages.push(kept) + planted(
        config,
        chapter.sub_items@,
        below,
        service.fresh,
        service.made + 1,
    ) =~= service.pages + planted_page(config, chapter, parent, service.fresh, service.made));
}

/// New chapters, none of them matched: their pages are planted one after
/// another.
proof fn lemma_new_items(
    service: Service,
    config: ConfluenceConfig,
    items: Seq<BookItem>,
    parent: ParentPageView,
    existing: Seq<Option<i64>>,
    end: nat,
)
    requires
        service.made + chapter_total(items) <= end,
        never_twice(service.fresh, service.made, end),
        unused(service, end),
        not_to_come(service, parent.id, end),
        existing.len() >= chapter_titles(config, items).len(),
        forall|i: int| 0 <= i < existing.len() ==> (#[trigger] existing[i]) is None,
    ensures
        pass_items(service, config, items, parent, existing).pages == service.pages + planted(
            config,
            items,
            parent,
            service.fresh,
            service.made,
        ),
        pass_items(service, config, items, parent, existing).made == service.made
            + chapter_total(items),
        pass_items(service, config, items, parent, existing).fresh == service.fresh,
        unused(pass_items(service, config, items, parent, existing), end),
    decreases items, 1nat,
{
    if items.len() == 0 {
        assert(service.pages + Seq::<Held>::empty() =~= service.pages);
    } else {
        let front = items.drop_last();
        lemma_new_items(service, config, front, parent, existing, end);
        let before = pass_items(service, config, front, parent, existing);
        match items.last() {
            BookItem::Chapter(chapter) => {
                let at = chapter_titles(config, front).len() as int;
                assert(existing[at] is None);
                assert(not_to_come(before, parent.id, end)) by {
                    assert forall|n: nat| before.made <= n < end implies #[trigger] fresh_id(
                        before.fresh,
                        n,
                    ) != parent.id by {
                        assert(fresh_id(service.fresh, n) != parent.id);
                    }
                }
                lemma_new_page(before, config, chapter, parent, end);
                assert(before.pages + planted_page(
                    config,
                    chapter,
                    parent,
                    service.fresh,
                    before.made,
                ) =~= service.pages + planted(config, items, parent, service.fresh, service.made));
            },
            BookItem::Separator => {
                assert(before.pages =~= service.pages + planted(
                    config,
                    items,
                    parent,
                    service.fresh,
                    service.made,
                ));
            },
        }
    }
}

/// A level below a page without children: its pages are planted, and none of
/// the ids that the service gives afterwards, before `end`, is in use.
pub(crate) proof fn lemma_new_level(
    service: Service,
    config: ConfluenceConfig,
    items: Seq<BookItem>,
    parent: ParentPageView,
    end: nat,
)
    requires
        service.made + chapter_total(items) <= end,
        never_twice(service.fresh, service.made, end),
        unused(service, end),
        not_to_come(service, parent.id, end),
        listed(service.pages, parent.id) =~= Seq::empty(),
    ensures
        pass_level(service, config, items, parent).pages == service.pages + planted(
            config,
            items,
            parent,
            service.fresh,
            service.made,
        ),
        pass_level(service, config, items, parent).made == service.made + chapter_total(items),
        pass_level(service, config, items, parent).fresh == service.fresh,
        unused(pass_level(service, config, items, parent), end),
    decreases items, 2nat,
{
    let titles = chapter_titles(config, items);
    lemma_match_without_children(titles);
    let matching = match_titles(titles, Seq::empty());
    assert(matching.remaining =~= Seq::empty());
    lemma_new_items(service, config, items, parent, matching.existing, end);
}

/// A pass over a book none of whose chapters has a page. The page above the
/// book has no children. The ids that the service gives to the pages of the
/// pass, one for each chapter, differ from one another, and no page has or
/// refers to one of them. Then the pass leaves the pages that were there as
/// they were and adds the pages of `planted`, and nothing else: one page for
/// every chapter of the tree, each created after the page above it and as a
/// child of that page. Nothing is deleted.
pub proof fn lemma_new_book_is_planted(
    service: Service,
    config: ConfluenceConfig,
    items: Seq<BookItem>,
    parent: ParentPageView,
)
    requires
        never_twice(service.fresh, service.made, service.made + chapter_total(items)),
        unused(service, service.made + chapter_total(items)),
        not_to_come(service, parent.id, service.made + chapter_total(items)),
        listed(service.pages, parent.id).len() == 0,
    ensures
        pass_level(service, config, items, parent).pages == service.pages + planted(
            config,
            items,
            parent,
            service.fresh,
            service.made,
        ),
        pass_level(service, config, items, parent).made == service.made + chapter_total(items),
        planted(config, items, parent, service.fresh, service.made).len() == chapter_total(
            items,
        ),
{
    lemma_new_level(service, config, items, parent, service.made + chapter_total(items));
    lemma_planted_len(config, items, parent, service.fresh, service.made);
}

/// There is one page in `planted` for every chapter.
pub proof fn lemma_planted_len(
    config: ConfluenceConfig,
    items: Seq<BookItem>,
    parent: ParentPageView,
    fresh: spec_fn(nat) -> i64,
    made: nat,
)
    ensures
        planted(config, items, parent, fresh, made).len() == chapter_total(items),
    decreases items, 1nat,
{
    if items.len() > 0 {
        lemma_planted_len(config, items.drop_last(), parent, fresh, made);
        match items.last() {
            BookItem::Chapter(chapter) => {
                let at = made + chapter_total(items.drop_last());
                let below = ParentPageView { id: fresh_id(fresh, at), space: parent.space };
                lemma_planted_len(config, chapter.sub_items@, below, fresh, at + 1);
                assert(planted_page(config, chapter, parent, fresh, at).len() == 1 + planted(
                    config,
                    chapter.sub_items@,
                    below,
                    fresh,
                    at + 1,
                ).len());
                assert(chapters_in(chapter) == 1 + chapter_total(chapter.sub_items@));
            },
            BookItem::Separator => {},
        }
    }
}

} // verus!
