//! A pass over a book whose chapters all have their pages.

use crate::book::{BookItem, Chapter};
use crate::config::ConfluenceConfig;
use crate::group::{chapter_titles, last_titled, lemma_last_titled, match_titles};
use crate::pages::{PageSummaryView, ParentPageView};
use crate::pass::{
    chapter_total, chapters_in, found, fresh_id, listed, pass_items, pass_level, pass_page,
    stored, updated, Held, Service,
};
use crate::pass::first_pass::never_twice;
use vstd::prelude::*;

verus! {

/// `page` after one more store.
pub open spec fn bumped(page: Held) -> Held {
    Held {
        id: page.id,
        parent: page.parent,
        space: page.space,
        title: page.title,
        version: (page.version + 1) as i32,
    }
}

/// The pages, each of those with an id in `ids` stored once more and the
/// others as they are.
pub open spec fn raised(pages: Seq<Held>, ids: Set<i64>) -> Seq<Held> {
    pages.map_values(
        |page: Held|
            if ids.contains(page.id) {
                bumped(page)
            } else {
                page
            },
    )
}

/// The ids that the service gave to `count` pages in a row, the first of them
/// after `made` others.
pub open spec fn ids_from(fresh: spec_fn(nat) -> i64, made: nat, count: nat) -> Set<i64> {
    Set::new(
        |id: i64| exists|n: nat| made <= n < made + count && #[trigger] fresh_id(fresh, n) == id,
    )
}

/// Whether no two pages have the same id.
pub open spec fn unique_ids(pages: Seq<Held>) -> bool {
    forall|i: int, j: int|
        0 <= i < j < pages.len() ==> (#[trigger] pages[i]).id != (#[trigger] pages[j]).id
}

/// The pages of the chapters among `items` as the service lists them, where
/// the chapters have pages with the ids that `planted` gives them.
pub open spec fn tops(
    config: ConfluenceConfig,
    items: Seq<BookItem>,
    parent: ParentPageView,
    fresh: spec_fn(nat) -> i64,
    made: nat,
) -> Seq<PageSummaryView>
    decreases items.len(),
{
    if items.len() == 0 {
        Seq::empty()
    } else {
        let front = tops(config, items.drop_last(), parent, fresh, made);
        match items.last() {
            BookItem::Chapter(chapter) => front.push(
                PageSummaryView {
                    id: fresh_id(fresh, made + chapter_total(items.drop_last())),
                    space: parent.space,
                    title: config.title_of(chapter.name@),
                    url: Seq::empty(),
                },
            ),
            BookItem::Separator => front,
        }
    }
}

/// Whether the pages are in step with the level `items` and the levels below
/// it: the chapters of a level have titles that differ from one another, the
/// children of the level's parent page are the pages of its chapters, one
/// each and in the order of the chapters, and each such page bears the
/// chapter's title. The ids are those that `planted` gives.
pub open spec fn in_step(
    pages: Seq<Held>,
    config: ConfluenceConfig,
    items: Seq<BookItem>,
    parent: ParentPageView,
    fresh: spec_fn(nat) -> i64,
    made: nat,
) -> bool
    decreases items, 2nat,
{
    &&& listed(pages, parent.id) == tops(config, items, parent, fresh, made)
    &&& chapter_titles(config, items).no_duplicates()
    &&& items_in_step(pages, config, items, parent, fresh, made)
}

/// Whether the pages are in step with each chapter among `items`.
pub open spec fn items_in_step(
    pages: Seq<Held>,
    config: ConfluenceConfig,
    items: Seq<BookItem>,
    parent: ParentPageView,
    fresh: spec_fn(nat) -> i64,
    made: nat,
) -> bool
    decreases items, 1nat,
{
    if items.len() == 0 {
        true
    } else {
        &&& items_in_step(pages, config, items.drop_last(), parent, fresh, made)
        &&& match items.last() {
            BookItem::Chapter(chapter) => page_in_step(
                pages,
                config,
                chapter,
                parent,
                fresh,
                made + chapter_total(items.drop_last()),
            ),
            BookItem::Separator => true,
        }
    }
}

/// Whether the pages are in step with `chapter` and the levels below it: the
/// chapter's page is there, a child of `parent` with the chapter's title.
pub open spec fn page_in_step(
    pages: Seq<Held>,
    config: ConfluenceConfig,
    chapter: Chapter,
    parent: ParentPageView,
    fresh: spec_fn(nat) -> i64,
    made: nat,
) -> bool
    decreases chapter, 0nat,
{
    &&& found(pages, fresh_id(fresh, made)) matches Some(page)
    &&& page.parent == parent.id
    &&& page.space == parent.space
    &&& page.title == config.title_of(chapter.name@)
    &&& page.version < i32::MAX
    &&& in_step(
        pages,
        config,
        chapter.sub_items@,
        ParentPageView { id: fresh_id(fresh, made), space: parent.space },
        fresh,
        made + 1,
    )
}

/// Storing pages once more does not change what is listed.
proof fn lemma_raised_listed(pages: Seq<Held>, ids: Set<i64>, parent: i64)
    ensures
        listed(raised(pages, ids), parent) == listed(pages, parent),
    decreases pages.len(),
{
    if pages.len() > 0 {
        assert(raised(pages, ids).drop_last() =~= raised(pages.drop_last(), ids));
        lemma_raised_listed(pages.drop_last(), ids, parent);
    }
}

/// A page that was not stored once more is found as it was.
proof fn lemma_raised_found(pages: Seq<Held>, ids: Set<i64>, id: i64)
    requires
        !ids.contains(id),
    ensures
        found(raised(pages, ids), id) == found(pages, id),
    decreases pages.len(),
{
    if pages.len() > 0 {
        assert(raised(pages, ids).drop_last() =~= raised(pages.drop_last(), ids));
        lemma_raised_found(pages.drop_last(), ids, id);
    }
}

/// What is found has the id that was asked for and is one of the pages.
proof fn lemma_found_is_there(pages: Seq<Held>, id: i64)
    ensures
        match found(pages, id) {
            Some(page) => page.id == id && pages.contains(page),
            None => forall|i: int| 0 <= i < pages.len() ==> (#[trigger] pages[i]).id != id,
        },
    decreases pages.len(),
{
    if pages.len() > 0 {
        let front = pages.drop_last();
        lemma_found_is_there(front, id);
        if pages.last().id == id {
            assert(pages[pages.len() - 1] == pages.last());
        } else {
            match found(front, id) {
                Some(page) => {
                    let at = choose|at: int| 0 <= at < front.len() && front[at] == page;
                    assert(pages[at] == page);
                },
                None => {
                    assert forall|i: int| 0 <= i < pages.len() implies (#[trigger] pages[i]).id
                        != id by {
                        if i < front.len() {
                            assert(front[i] == pages[i]);
                        }
                    }
                },
            }
        }
    }
}

/// An update of a page with its own title, space and parent stores it once
/// more and changes nothing else.
proof fn lemma_raised_stored(pages: Seq<Held>, ids: Set<i64>, page: Held, parent: ParentPageView)
    requires
        unique_ids(pages),
        found(pages, page.id) == Some(page),
        !ids.contains(page.id),
        page.version < i32::MAX,
        page.parent == parent.id,
        page.space == parent.space,
    ensures
        updated(raised(pages, ids), page.id, page.version, page.title, parent) == Some(
            raised(pages, ids.insert(page.id)),
        ),
    decreases pages.len(),
{
    if pages.len() > 0 {
        let front = pages.drop_last();
        let more = ids.insert(page.id);
        assert(raised(pages, ids).drop_last() =~= raised(front, ids));
        assert(raised(pages, more).drop_last() =~= raised(front, more));
        assert(unique_ids(front)) by {
            assert forall|i: int, j: int| 0 <= i < j < front.len() implies (#[trigger] front[i]).id
                != (#[trigger] front[j]).id by {
                assert(pages[i] == front[i] && pages[j] == front[j]);
            }
        }
        if pages.last().id == page.id {
            assert(raised(front, ids) =~= raised(front, more)) by {
                assert forall|i: int| 0 <= i < front.len() implies front[i].id != page.id by {
                    assert(pages[i] == front[i]);
                    assert(pages[pages.len() - 1] == pages.last());
                }
            }
            assert(raised(pages, more) =~= raised(front, more).push(bumped(page)));
        } else {
            lemma_raised_stored(front, ids, page, parent);
            assert(raised(pages, ids).last().id == pages.last().id);
            assert(raised(pages, more) =~= raised(front, more).push(raised(pages, ids).last()));
        }
    }
}

/// The listed pages of a level bear the titles of its chapters, in order.
proof fn lemma_tops_titles(
    config: ConfluenceConfig,
    items: Seq<BookItem>,
    parent: ParentPageView,
    fresh: spec_fn(nat) -> i64,
    made: nat,
)
    ensures
        tops(config, items, parent, fresh, made).len() == chapter_titles(config, items).len(),
        forall|k: int|
            0 <= k < chapter_titles(config, items).len() ==> (#[trigger] tops(
                config,
                items,
                parent,
                fresh,
                made,
            )[k]).title == chapter_titles(config, items)[k],
    decreases items.len(),
{
    if items.len() > 0 {
        lemma_tops_titles(config, items.drop_last(), parent, fresh, made);
    }
}

/// Children that bear, one by one, the titles of the chapters, which differ
/// from one another: the first so many chapters take the first so many
/// children, and the others are still there.
proof fn lemma_match_in_step(titles: Seq<Seq<char>>, children: Seq<PageSummaryView>, n: int)
    requires
        titles.no_duplicates(),
        children.len() == titles.len(),
        forall|k: int| 0 <= k < titles.len() ==> (#[trigger] children[k]).title == titles[k],
        0 <= n <= titles.len(),
    ensures
        match_titles(titles.take(n), children).existing =~= Seq::new(
            n as nat,
            |k: int| Some(children[k].id),
        ),
        match_titles(titles.take(n), children).remaining =~= children.skip(n),
    decreases n,
{
    if n > 0 {
        lemma_match_in_step(titles, children, n - 1);
        let upto = titles.take(n);
        assert(upto.drop_last() =~= titles.take(n - 1));
        assert(upto.last() == titles[n - 1]);
        let rest = children.skip(n - 1);
        lemma_last_titled(rest, titles[n - 1]);
        let at = last_titled(rest, titles[n - 1]);
        assert(rest[0].title == titles[n - 1]);
        if at > 0 {
            assert(rest[at] == children[n - 1 + at]);
            assert(titles[n - 1 + at] == titles[n - 1]);
        }
        assert(at == 0);
        assert(rest.remove(0) =~= children.skip(n));
    } else {
        assert(titles.take(0) =~= Seq::<Seq<char>>::empty());
    }
}

/// A chapter whose page is there: its page and the pages below it are stored
/// once more.
proof fn lemma_known_page(
    service: Service,
    pages: Seq<Held>,
    done: Set<i64>,
    config: ConfluenceConfig,
    chapter: Chapter,
    parent: ParentPageView,
    made: nat,
)
    requires
        never_twice(service.fresh, made, made + chapters_in(chapter)),
        unique_ids(pages),
        service.pages == raised(pages, done),
        page_in_step(pages, config, chapter, parent, service.fresh, made),
        forall|n: nat|
            made <= n < made + chapters_in(chapter) ==> !done.contains(
                #[trigger] fresh_id(service.fresh, n),
            ),
    ensures
        pass_page(
            service,
            config,
            chapter,
            parent,
            Some(fresh_id(service.fresh, made)),
        ) == (Service {
            pages: raised(pages, done + ids_from(service.fresh, made, chapters_in(chapter))),
            made: service.made,
            fresh: service.fresh,
        }),
    decreases chapter, 0nat,
{
    let fresh = service.fresh;
    let id = fresh_id(fresh, made);
    let page = found(pages, id)->0;
    let below = ParentPageView { id, space: parent.space };
    let more = done.insert(id);
    let count = chapter_total(chapter.sub_items@);
    assert(!done.contains(fresh_id(fresh, made)));
    lemma_found_is_there(pages, id);
    lemma_raised_found(pages, done, id);
    lemma_raised_stored(pages, done, page, parent);
    let after = Service { pages: raised(pages, more), made: service.made, fresh };
    assert forall|n: nat| made + 1 <= n < made + 1 + count implies !more.contains(
        #[trigger] fresh_id(fresh, n),
    ) by {
        assert(fresh_id(fresh, n) != fresh_id(fresh, made));
    }
    lemma_known_level(after, pages, more, config, chapter.sub_items@, below, made + 1);
    assert(more + ids_from(fresh, made + 1, count) =~= done + ids_from(
        fresh,
        made,
        chapters_in(chapter),
    )) by {
        assert forall|x: i64| (more + ids_from(fresh, made + 1, count)).contains(x) implies (done
            + ids_from(fresh, made, chapters_in(chapter))).contains(x) by {
            if x == id {
                assert(fresh_id(fresh, made) == x);
            } else if !done.contains(x) {
                let n = choose|n: nat|
                    made + 1 <= n < made + 1 + count && #[trigger] fresh_id(fresh, n) == x;
                assert(made <= n < made + chapters_in(chapter));
            }
        }
        assert forall|x: i64| (done + ids_from(fresh, made, chapters_in(chapter))).contains(
            x,
        ) implies (more + ids_from(fresh, made + 1, count)).contains(x) by {
            if !done.contains(x) {
                let n = choose|n: nat|
                    made <= n < made + chapters_in(chapter) && #[trigger] fresh_id(fresh, n) == x;
                if n > made {
                    assert(made + 1 <= n < made + 1 + count);
                }
            }
        }
    }
}

/// Chapters whose pages are there, each matched with its page: their pages
/// are stored once more, one after another.
proof fn lemma_known_items(
    service: Service,
    pages: Seq<Held>,
    done: Set<i64>,
    config: ConfluenceConfig,
    items: Seq<BookItem>,
    parent: ParentPageView,
    made: nat,
    existing: Seq<Option<i64>>,
)
    requires
        never_twice(service.fresh, made, made + chapter_total(items)),
        unique_ids(pages),
        service.pages == raised(pages, done),
        items_in_step(pages, config, items, parent, service.fresh, made),
        forall|n: nat|
            made <= n < made + chapter_total(items) ==> !done.contains(
                #[trigger] fresh_id(service.fresh, n),
            ),
        existing.len() >= tops(config, items, parent, service.fresh, made).len(),
        forall|k: int|
            0 <= k < tops(config, items, parent, service.fresh, made).len() ==> (
            #[trigger] existing[k])
                == Some(tops(config, items, parent, service.fresh, made)[k].id),
    ensures
        pass_items(service, config, items, parent, existing) == (Service {
            pages: raised(pages, done + ids_from(service.fresh, made, chapter_total(items))),
            made: service.made,
            fresh: service.fresh,
        }),
    decreases items, 1nat,
{
    let fresh = service.fresh;
    if items.len() == 0 {
        assert(done + ids_from(fresh, made, 0) =~= done);
    } else {
        let front = items.drop_last();
        let some = chapter_total(front);
        let level = tops(config, items, parent, fresh, made);
        let early = tops(config, front, parent, fresh, made);
        assert forall|k: int| 0 <= k < early.len() implies #[trigger] existing[k] == Some(
            early[k].id,
        ) by {
            assert(level[k] == early[k]);
        }
        lemma_known_items(service, pages, done, config, front, parent, made, existing);
        let before = pass_items(service, config, front, parent, existing);
        let sofar = done + ids_from(fresh, made, some);
        match items.last() {
            BookItem::Chapter(chapter) => {
                lemma_tops_titles(config, front, parent, fresh, made);
                let at = chapter_titles(config, front).len() as int;
                assert(level[at].id == fresh_id(fresh, made + some));
                assert(existing[at] == Some(fresh_id(fresh, made + some)));
                assert forall|n: nat|
                    made + some <= n < made + some + chapters_in(chapter) implies !sofar.contains(
                    #[trigger] fresh_id(fresh, n),
                ) by {
                    assert(!done.contains(fresh_id(fresh, n)));
                    if ids_from(fresh, made, some).contains(fresh_id(fresh, n)) {
                        let m = choose|m: nat|
                            made <= m < made + some && #[trigger] fresh_id(fresh, m) == fresh_id(
                                fresh,
                                n,
                            );
                        assert(m != n);
                    }
                }
                lemma_known_page(before, pages, sofar, config, chapter, parent, made + some);
                assert(sofar + ids_from(fresh, made + some, chapters_in(chapter)) =~= done
                    + ids_from(fresh, made, chapter_total(items))) by {
                    lemma_ids_join(fresh, made, some, chapters_in(chapter));
                }
            },
            BookItem::Separator => {},
        }
    }
}

/// Ids given in a row, and more ids given after them, are ids given in a row.
proof fn lemma_ids_join(fresh: spec_fn(nat) -> i64, made: nat, some: nat, more: nat)
    ensures
        ids_from(fresh, made, some) + ids_from(fresh, made + some, more) =~= ids_from(
            fresh,
            made,
            some + more,
        ),
{
    let left = ids_from(fresh, made, some) + ids_from(fresh, made + some, more);
    let right = ids_from(fresh, made, some + more);
    assert forall|x: i64| left.contains(x) implies right.contains(x) by {
        if ids_from(fresh, made, some).contains(x) {
            let n = choose|n: nat| made <= n < made + some && #[trigger] fresh_id(fresh, n) == x;
            assert(made <= n < made + some + more);
        } else {
            let n = choose|n: nat|
                made + some <= n < made + some + more && #[trigger] fresh_id(fresh, n) == x;
            assert(made <= n < made + some + more);
        }
    }
    assert forall|x: i64| right.contains(x) implies left.contains(x) by {
        let n = choose|n: nat| made <= n < made + some + more && #[trigger] fresh_id(fresh, n) == x;
        if n < made + some {
            assert(ids_from(fresh, made, some).contains(x));
        } else {
            assert(made + some <= n < made + some + more);
            assert(ids_from(fresh, made + some, more).contains(x));
        }
    }
}

/// A level in step with the pages: its pages are stored once more, and none
/// is left over.
proof fn lemma_known_level(
    service: Service,
    pages: Seq<Held>,
    done: Set<i64>,
    config: ConfluenceConfig,
    items: Seq<BookItem>,
    parent: ParentPageView,
    made: nat,
)
    requires
        never_twice(service.fresh, made, made + chapter_total(items)),
        unique_ids(pages),
        service.pages == raised(pages, done),
        in_step(pages, config, items, parent, service.fresh, made),
        forall|n: nat|
            made <= n < made + chapter_total(items) ==> !done.contains(
                #[trigger] fresh_id(service.fresh, n),
            ),
    ensures
        pass_level(service, config, items, parent) == (Service {
            pages: raised(pages, done + ids_from(service.fresh, made, chapter_total(items))),
            made: service.made,
            fresh: service.fresh,
        }),
    decreases items, 2nat,
{
    let fresh = service.fresh;
    let titles = chapter_titles(config, items);
    let level = tops(config, items, parent, fresh, made);
    lemma_raised_listed(pages, done, parent.id);
    lemma_tops_titles(config, items, parent, fresh, made);
    lemma_match_in_step(titles, level, titles.len() as int);
    assert(titles.take(titles.len() as int) =~= titles);
    let matching = match_titles(titles, level);
    assert(matching.remaining =~= Seq::empty());
    lemma_known_items(service, pages, done, config, items, parent, made, matching.existing);
}

/// A pass over a book whose pages are all there, in step with it: every
/// chapter's page is fetched and stored once more, under the id it has. No
/// page is created, none is deleted, and no other page is touched.
pub proof fn lemma_known_book_is_updated(
    service: Service,
    config: ConfluenceConfig,
    items: Seq<BookItem>,
    parent: ParentPageView,
    made: nat,
)
    requires
        never_twice(service.fresh, made, made + chapter_total(items)),
        unique_ids(service.pages),
        in_step(service.pages, config, items, parent, service.fresh, made),
    ensures
        pass_level(service, config, items, parent) == (Service {
            pages: raised(
                service.pages,
                ids_from(service.fresh, made, chapter_total(items)),
            ),
            made: service.made,
            fresh: service.fresh,
        }),
{
    let none = Set::<i64>::empty();
    assert(raised(service.pages, none) =~= service.pages);
    lemma_known_level(service, service.pages, none, config, items, parent, made);
    assert(none + ids_from(service.fresh, made, chapter_total(items)) =~= ids_from(
        service.fresh,
        made,
        chapter_total(items),
    ));
}

} // verus!
