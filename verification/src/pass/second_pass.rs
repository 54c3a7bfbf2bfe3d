//! Two passes in a row over a book that had no pages.

use crate::book::{BookItem, Chapter};
use crate::config::ConfluenceConfig;
use crate::group::chapter_titles;
use crate::pages::ParentPageView;
use crate::pass::first_pass::{
    lemma_listed_none, lemma_new_level, lemma_planted_len, never_twice, not_to_come, planted,
    planted_page, unused,
};
use crate::pass::known_book::{
    ids_from, in_step, items_in_step, lemma_known_book_is_updated, page_in_step, raised, tops,
    unique_ids,
};
use crate::pass::{
    chapter_total, chapters_in, found, fresh_id, listed, pass_level, summary_of_held, Held,
    Service,
};
use vstd::prelude::*;

verus! {

/// Whether the chapters of every level among and below `items` have titles
/// that differ from one another.
pub open spec fn titles_differ(config: ConfluenceConfig, items: Seq<BookItem>) -> bool
    decreases items, 1nat,
{
    &&& chapter_titles(config, items).no_duplicates()
    &&& levels_differ(config, items)
}

/// Whether the titles differ in every level below a chapter among `items`.
pub open spec fn levels_differ(config: ConfluenceConfig, items: Seq<BookItem>) -> bool
    decreases items, 0nat,
{
    if items.len() == 0 {
        true
    } else {
        &&& levels_differ(config, items.drop_last())
        &&& match items.last() {
            BookItem::Chapter(chapter) => titles_differ(config, chapter.sub_items@),
            BookItem::Separator => true,
        }
    }
}

/// Whether `pages` were created one after another, the first after `made`
/// others, each as a child of the page `parent` or of a page before it.
spec fn well_planted(pages: Seq<Held>, parent: i64, fresh: spec_fn(nat) -> i64, made: nat) -> bool {
    forall|i: int|
        0 <= i < pages.len() ==> {
            &&& (#[trigger] pages[i]).id == fresh_id(fresh, (made + i) as nat)
            &&& (pages[i].parent == parent || exists|j: int|
                0 <= j < i && pages[i].parent == #[trigger] fresh_id(fresh, (made + j) as nat))
        }
}

/// Whether no page has, as its id or as its parent, one of `count` ids that
/// the service gave in a row, the first of them after `from` others.
spec fn foreign(pages: Seq<Held>, fresh: spec_fn(nat) -> i64, from: nat, count: nat) -> bool {
    forall|i: int, k: nat|
        #![trigger pages[i], fresh_id(fresh, k)]
        0 <= i < pages.len() && from <= k < from + count ==> pages[i].id != fresh_id(fresh, k)
            && pages[i].parent != fresh_id(fresh, k)
}

/// Whether no page is a child of the page `parent`.
spec fn no_child(pages: Seq<Held>, parent: i64) -> bool {
    forall|i: int| 0 <= i < pages.len() ==> (#[trigger] pages[i]).parent != parent
}

/// Whether `id` is none of `count` ids that the service gave in a row.
spec fn outside(id: i64, fresh: spec_fn(nat) -> i64, from: nat, count: nat) -> bool {
    forall|k: nat| from <= k < from + count ==> #[trigger] fresh_id(fresh, k) != id
}

/// Pages created after well planted pages, and well planted themselves, are
/// well planted together with them.
proof fn lemma_well_planted_join(
    a: Seq<Held>,
    b: Seq<Held>,
    parent: i64,
    fresh: spec_fn(nat) -> i64,
    made: nat,
)
    requires
        well_planted(a, parent, fresh, made),
        well_planted(b, parent, fresh, made + a.len()),
    ensures
        well_planted(a + b, parent, fresh, made),
{
    let all = a + b;
    assert forall|i: int| 0 <= i < all.len() implies {
        &&& (#[trigger] all[i]).id == fresh_id(fresh, (made + i) as nat)
        &&& (all[i].parent == parent || exists|j: int|
            0 <= j < i && all[i].parent == #[trigger] fresh_id(fresh, (made + j) as nat))
    } by {
        if i < a.len() {
            assert(all[i] == a[i]);
        } else {
            let at = i - a.len();
            assert(all[i] == b[at]);
            assert(b[at].id == fresh_id(fresh, (made + a.len() + at) as nat));
            if b[at].parent != parent {
                let j = choose|j: int|
                    0 <= j < at && b[at].parent == #[trigger] fresh_id(
                        fresh,
                        (made + a.len() + j) as nat,
                    );
                assert(all[i].parent == fresh_id(fresh, (made + (a.len() + j)) as nat));
            }
        }
    }
}

/// The pages of `planted` are well planted, one for each chapter.
proof fn lemma_planted_is_well(
    config: ConfluenceConfig,
    items: Seq<BookItem>,
    parent: ParentPageView,
    fresh: spec_fn(nat) -> i64,
    made: nat,
)
    ensures
        well_planted(planted(config, items, parent, fresh, made), parent.id, fresh, made),
        planted(config, items, parent, fresh, made).len() == chapter_total(items),
    decreases items, 1nat,
{
    lemma_planted_len(config, items, parent, fresh, made);
    if items.len() > 0 {
        let front = items.drop_last();
        lemma_planted_is_well(config, front, parent, fresh, made);
        lemma_planted_len(config, front, parent, fresh, made);
        match items.last() {
            BookItem::Chapter(chapter) => {
                let at = made + chapter_total(front);
                lemma_planted_page_is_well(config, chapter, parent, fresh, at);
                lemma_well_planted_join(
                    planted(config, front, parent, fresh, made),
                    planted_page(config, chapter, parent, fresh, at),
                    parent.id,
                    fresh,
                    made,
                );
            },
            BookItem::Separator => {
                assert(planted(config, items, parent, fresh, made) =~= planted(
                    config,
                    front,
                    parent,
                    fresh,
                    made,
                ));
            },
        }
    }
}

/// The pages of `planted_page` are well planted, one for each chapter.
proof fn lemma_planted_page_is_well(
    config: ConfluenceConfig,
    chapter: Chapter,
    parent: ParentPageView,
    fresh: spec_fn(nat) -> i64,
    made: nat,
)
    ensures
        well_planted(planted_page(config, chapter, parent, fresh, made), parent.id, fresh, made),
        planted_page(config, chapter, parent, fresh, made).len() == chapters_in(chapter),
    decreases chapter, 0nat,
{
    let id = fresh_id(fresh, made);
    let below = ParentPageView { id, space: parent.space };
    let sub = planted(config, chapter.sub_items@, below, fresh, made + 1);
    let all = planted_page(config, chapter, parent, fresh, made);
    lemma_planted_is_well(config, chapter.sub_items@, below, fresh, made + 1);
    assert(all.len() == 1 + sub.len());
    assert forall|i: int| 0 <= i < all.len() implies {
        &&& (#[trigger] all[i]).id == fresh_id(fresh, (made + i) as nat)
        &&& (all[i].parent == parent.id || exists|j: int|
            0 <= j < i && all[i].parent == #[trigger] fresh_id(fresh, (made + j) as nat))
    } by {
        if i > 0 {
            let at = i - 1;
            assert(all[i] == sub[at]);
            assert(sub[at].id == fresh_id(fresh, (made + 1 + at) as nat));
            if sub[at].parent == id {
                assert(all[i].parent == fresh_id(fresh, (made + 0) as nat));
            } else {
                let j = choose|j: int|
                    0 <= j < at && sub[at].parent == #[trigger] fresh_id(
                        fresh,
                        (made + 1 + j) as nat,
                    );
                assert(all[i].parent == fresh_id(fresh, (made + (j + 1)) as nat));
            }
        }
    }
}

/// Well planted pages use none of the ids given before or after their own.
proof fn lemma_well_planted_foreign(
    pages: Seq<Held>,
    parent: i64,
    fresh: spec_fn(nat) -> i64,
    made: nat,
    from: nat,
    count: nat,
    lo: nat,
    hi: nat,
)
    requires
        never_twice(fresh, lo, hi),
        lo <= made && made + pages.len() <= hi,
        lo <= from && from + count <= hi,
        well_planted(pages, parent, fresh, made),
        outside(parent, fresh, from, count),
        from + count <= made || made + pages.len() <= from,
    ensures
        foreign(pages, fresh, from, count),
{
    assert forall|i: int, k: nat|
        #![trigger pages[i], fresh_id(fresh, k)]
        0 <= i < pages.len() && from <= k < from + count implies pages[i].id != fresh_id(fresh, k)
        && pages[i].parent != fresh_id(fresh, k) by {
        assert(pages[i].id == fresh_id(fresh, (made + i) as nat));
        assert((made + i) as nat != k);
        if pages[i].parent != parent {
            let j = choose|j: int|
                0 <= j < i && pages[i].parent == #[trigger] fresh_id(fresh, (made + j) as nat);
            assert((made + j) as nat != k);
        }
    }
}

/// Among well planted pages none is a child of a page that is neither their
/// parent nor one of them.
proof fn lemma_well_planted_no_child(
    pages: Seq<Held>,
    parent: i64,
    fresh: spec_fn(nat) -> i64,
    made: nat,
    other: i64,
)
    requires
        well_planted(pages, parent, fresh, made),
        other != parent,
        outside(other, fresh, made, pages.len()),
    ensures
        no_child(pages, other),
{
    assert forall|i: int| 0 <= i < pages.len() implies (#[trigger] pages[i]).parent != other by {
        if pages[i].parent != parent {
            let j = choose|j: int|
                0 <= j < i && pages[i].parent == #[trigger] fresh_id(fresh, (made + j) as nat);
            assert(fresh_id(fresh, (made + j) as nat) != other);
        }
    }
}

/// What is listed of pages in a row is what is listed of the first and then
/// of the others.
proof fn lemma_listed_join(a: Seq<Held>, b: Seq<Held>, parent: i64)
    ensures
        listed(a + b, parent) == listed(a, parent) + listed(b, parent),
    decreases b.len(),
{
    if b.len() == 0 {
        assert(a + b =~= a);
        assert(listed(a, parent) + listed(b, parent) =~= listed(a, parent));
    } else {
        assert((a + b).drop_last() =~= a + b.drop_last());
        assert((a + b).last() == b.last());
        lemma_listed_join(a, b.drop_last(), parent);
        assert(listed(a + b, parent) =~= listed(a, parent) + listed(b, parent));
    }
}

/// Where nothing is listed below a page, no page is its child.
proof fn lemma_listed_some(pages: Seq<Held>, parent: i64)
    requires
        listed(pages, parent).len() == 0,
    ensures
        no_child(pages, parent),
    decreases pages.len(),
{
    if pages.len() > 0 {
        lemma_listed_some(pages.drop_last(), parent);
        assert forall|i: int| 0 <= i < pages.len() implies (#[trigger] pages[i]).parent
            != parent by {
            if i < pages.len() - 1 {
                assert(pages.drop_last()[i] == pages[i]);
            }
        }
    }
}

/// A page is found where no page after it has its id.
proof fn lemma_found_in_middle(a: Seq<Held>, page: Held, b: Seq<Held>)
    requires
        forall|i: int| 0 <= i < b.len() ==> (#[trigger] b[i]).id != page.id,
    ensures
        found(a + seq![page] + b, page.id) == Some(page),
    decreases b.len(),
{
    let all = a + seq![page] + b;
    if b.len() == 0 {
        assert(all.last() == page);
    } else {
        assert(all.last() == b.last());
        assert(b[b.len() - 1].id != page.id);
        assert(all.drop_last() =~= a + seq![page] + b.drop_last());
        assert forall|i: int| 0 <= i < b.drop_last().len() implies (#[trigger] b.drop_last()[i]).id
            != page.id by {
            assert(b[i].id != page.id);
        }
        lemma_found_in_middle(a, page, b.drop_last());
    }
}

/// Of the planted pages of a level, those of its chapters are listed below
/// the level's parent page, in the order of the chapters.
proof fn lemma_planted_listed(
    config: ConfluenceConfig,
    items: Seq<BookItem>,
    parent: ParentPageView,
    fresh: spec_fn(nat) -> i64,
    made: nat,
)
    requires
        outside(parent.id, fresh, made, chapter_total(items)),
    ensures
        listed(planted(config, items, parent, fresh, made), parent.id) == tops(
            config,
            items,
            parent,
            fresh,
            made,
        ),
    decreases items.len(),
{
    if items.len() > 0 {
        let front = items.drop_last();
        let early = planted(config, front, parent, fresh, made);
        lemma_planted_listed(config, front, parent, fresh, made);
        match items.last() {
            BookItem::Chapter(chapter) => {
                let at = made + chapter_total(front);
                let id = fresh_id(fresh, at);
                let below = ParentPageView { id, space: parent.space };
                let page = Held {
                    id,
                    parent: parent.id,
                    space: parent.space,
                    title: config.title_of(chapter.name@),
                    version: 2,
                };
                let sub = planted(config, chapter.sub_items@, below, fresh, at + 1);
                lemma_planted_is_well(config, chapter.sub_items@, below, fresh, at + 1);
                assert(chapters_in(chapter) == 1 + chapter_total(chapter.sub_items@));
                assert(outside(parent.id, fresh, at + 1, sub.len())) by {
                    assert forall|k: nat|
                        at + 1 <= k < at + 1 + sub.len() implies #[trigger] fresh_id(fresh, k)
                        != parent.id by {
                        assert(made <= k < made + chapter_total(items));
                    }
                }
                assert(fresh_id(fresh, at) != parent.id);
                lemma_well_planted_no_child(sub, id, fresh, at + 1, parent.id);
                lemma_listed_none(sub, parent.id);
                let one = seq![page];
                assert(one.drop_last() =~= Seq::<Held>::empty());
                assert(one.last() == page);
                assert(listed(one.drop_last(), parent.id) =~= Seq::empty());
                assert(listed(one, parent.id) =~= seq![summary_of_held(page)]);
                lemma_listed_join(one, sub, parent.id);
                lemma_listed_join(early, one + sub, parent.id);
                assert(planted_page(config, chapter, parent, fresh, at) =~= one + sub);
                assert(planted(config, items, parent, fresh, made) =~= early + (one + sub));
                assert(listed(early, parent.id) + (listed(one, parent.id) + listed(
                    sub,
                    parent.id,
                )) =~= tops(config, items, parent, fresh, made));
            },
            BookItem::Separator => {
                assert(planted(config, items, parent, fresh, made) =~= early);
            },
        }
    }
}

/// Pages that use none of the ids, together.
proof fn lemma_foreign_join(
    a: Seq<Held>,
    b: Seq<Held>,
    fresh: spec_fn(nat) -> i64,
    from: nat,
    count: nat,
)
    requires
        foreign(a, fresh, from, count),
        foreign(b, fresh, from, count),
    ensures
        foreign(a + b, fresh, from, count),
{
    let all = a + b;
    assert forall|i: int, k: nat|
        #![trigger all[i], fresh_id(fresh, k)]
        0 <= i < all.len() && from <= k < from + count implies all[i].id != fresh_id(fresh, k)
        && all[i].parent != fresh_id(fresh, k) by {
        if i < a.len() {
            assert(all[i] == a[i]);
            assert(a[i].id != fresh_id(fresh, k));
        } else {
            assert(all[i] == b[i - a.len()]);
            assert(b[i - a.len()].id != fresh_id(fresh, k));
        }
    }
}

/// Pages that use none of the ids use none of some of them.
proof fn lemma_foreign_less(
    pages: Seq<Held>,
    fresh: spec_fn(nat) -> i64,
    from: nat,
    count: nat,
    start: nat,
    some: nat,
)
    requires
        foreign(pages, fresh, from, count),
        from <= start,
        start + some <= from + count,
    ensures
        foreign(pages, fresh, start, some),
{
    assert forall|i: int, k: nat|
        #![trigger pages[i], fresh_id(fresh, k)]
        0 <= i < pages.len() && start <= k < start + some implies pages[i].id != fresh_id(fresh, k)
        && pages[i].parent != fresh_id(fresh, k) by {
        assert(from <= k < from + count);
    }
}

/// The planted pages of a chapter, among pages that use none of their ids:
/// the pages are in step with the chapter.
proof fn lemma_planted_page_in_step(
    all: Seq<Held>,
    head: Seq<Held>,
    tail: Seq<Held>,
    config: ConfluenceConfig,
    chapter: Chapter,
    parent: ParentPageView,
    fresh: spec_fn(nat) -> i64,
    made: nat,
)
    requires
        never_twice(fresh, made, made + chapters_in(chapter)),
        all == head + planted_page(config, chapter, parent, fresh, made) + tail,
        foreign(head, fresh, made, chapters_in(chapter)),
        foreign(tail, fresh, made, chapters_in(chapter)),
        outside(parent.id, fresh, made, chapters_in(chapter)),
        titles_differ(config, chapter.sub_items@),
    ensures
        page_in_step(all, config, chapter, parent, fresh, made),
    decreases chapter, 0nat,
{
    let id = fresh_id(fresh, made);
    let below = ParentPageView { id, space: parent.space };
    let count = chapter_total(chapter.sub_items@);
    let page = Held {
        id,
        parent: parent.id,
        space: parent.space,
        title: config.title_of(chapter.name@),
        version: 2,
    };
    let one = seq![page];
    let sub = planted(config, chapter.sub_items@, below, fresh, made + 1);
    assert(planted_page(config, chapter, parent, fresh, made) =~= one + sub);
    lemma_planted_is_well(config, chapter.sub_items@, below, fresh, made + 1);
    assert(chapters_in(chapter) == 1 + count);
    assert(outside(id, fresh, made + 1, count)) by {
        assert forall|k: nat| made + 1 <= k < made + 1 + count implies #[trigger] fresh_id(
            fresh,
            k,
        ) != id by {
            assert(fresh_id(fresh, k) != fresh_id(fresh, made));
        }
    }
    assert(outside(parent.id, fresh, made + 1, count)) by {
        assert forall|k: nat| made + 1 <= k < made + 1 + count implies #[trigger] fresh_id(
            fresh,
            k,
        ) != parent.id by {
            assert(made <= k < made + chapters_in(chapter));
        }
    }
    // the chapter's page is found
    assert(all =~= head + one + (sub + tail));
    assert forall|i: int| 0 <= i < (sub + tail).len() implies (#[trigger] (sub + tail)[i]).id
        != id by {
        if i < sub.len() {
            assert((sub + tail)[i] == sub[i]);
            assert(sub[i].id == fresh_id(fresh, (made + 1 + i) as nat));
            assert(fresh_id(fresh, (made + 1 + i) as nat) != fresh_id(fresh, made));
        } else {
            assert((sub + tail)[i] == tail[i - sub.len()]);
            assert(tail[i - sub.len()].id != fresh_id(fresh, made));
        }
    }
    lemma_found_in_middle(head, page, sub + tail);
    // the level below is in step
    let before = head + one;
    assert(no_child(before, id)) by {
        assert forall|i: int| 0 <= i < before.len() implies (#[trigger] before[i]).parent
            != id by {
            if i < head.len() {
                assert(before[i] == head[i]);
                assert(head[i].parent != fresh_id(fresh, made));
            } else {
                assert(fresh_id(fresh, made) != parent.id);
            }
        }
    }
    assert(no_child(tail, id)) by {
        assert forall|i: int| 0 <= i < tail.len() implies (#[trigger] tail[i]).parent != id by {
            assert(tail[i].parent != fresh_id(fresh, made));
        }
    }
    assert(foreign(one, fresh, made + 1, count)) by {
        assert forall|i: int, k: nat|
            #![trigger one[i], fresh_id(fresh, k)]
            0 <= i < one.len() && made + 1 <= k < made + 1 + count implies one[i].id != fresh_id(
            fresh,
            k,
        ) && one[i].parent != fresh_id(fresh, k) by {
            assert(fresh_id(fresh, k) != fresh_id(fresh, made));
            assert(fresh_id(fresh, k) != parent.id);
        }
    }
    lemma_foreign_less(head, fresh, made, chapters_in(chapter), made + 1, count);
    lemma_foreign_less(tail, fresh, made, chapters_in(chapter), made + 1, count);
    lemma_foreign_join(head, one, fresh, made + 1, count);
    assert(all =~= before + sub + tail);
    lemma_planted_level_in_step(
        all,
        before,
        tail,
        config,
        chapter.sub_items@,
        below,
        fresh,
        made + 1,
    );
}

/// The planted pages of some chapters, among pages that use none of their
/// ids: the pages are in step with each of the chapters.
proof fn lemma_planted_items_in_step(
    all: Seq<Held>,
    head: Seq<Held>,
    tail: Seq<Held>,
    config: ConfluenceConfig,
    items: Seq<BookItem>,
    parent: ParentPageView,
    fresh: spec_fn(nat) -> i64,
    made: nat,
)
    requires
        never_twice(fresh, made, made + chapter_total(items)),
        all == head + planted(config, items, parent, fresh, made) + tail,
        foreign(head, fresh, made, chapter_total(items)),
        foreign(tail, fresh, made, chapter_total(items)),
        outside(parent.id, fresh, made, chapter_total(items)),
        levels_differ(config, items),
    ensures
        items_in_step(all, config, items, parent, fresh, made),
    decreases items, 1nat,
{
    if items.len() > 0 {
        let front = items.drop_last();
        let some = chapter_total(front);
        let early = planted(config, front, parent, fresh, made);
        lemma_planted_is_well(config, front, parent, fresh, made);
        assert(outside(parent.id, fresh, made, some)) by {
            assert forall|k: nat| made <= k < made + some implies #[trigger] fresh_id(fresh, k)
                != parent.id by {
                assert(made <= k < made + chapter_total(items));
            }
        }
        lemma_foreign_less(head, fresh, made, chapter_total(items), made, some);
        lemma_foreign_less(tail, fresh, made, chapter_total(items), made, some);
        match items.last() {
            BookItem::Chapter(chapter) => {
                let at = made + some;
                let late = planted_page(config, chapter, parent, fresh, at);
                lemma_planted_page_is_well(config, chapter, parent, fresh, at);
                assert(planted(config, items, parent, fresh, made) =~= early + late);
                // the chapters before
                lemma_well_planted_foreign(
                    late,
                    parent.id,
                    fresh,
                    at,
                    made,
                    some,
                    made,
                    made + chapter_total(items),
                );
                lemma_foreign_join(late, tail, fresh, made, some);
                assert(all =~= head + early + (late + tail));
                lemma_planted_items_in_step(
                    all,
                    head,
                    late + tail,
                    config,
                    front,
                    parent,
                    fresh,
                    made,
                );
                // the chapter itself
                assert(outside(parent.id, fresh, at, chapters_in(chapter))) by {
                    assert forall|k: nat|
                        at <= k < at + chapters_in(chapter) implies #[trigger] fresh_id(fresh, k)
                        != parent.id by {
                        assert(made <= k < made + chapter_total(items));
                    }
                }
                lemma_well_planted_foreign(
                    early,
                    parent.id,
                    fresh,
                    made,
                    at,
                    chapters_in(chapter),
                    made,
                    made + chapter_total(items),
                );
                lemma_foreign_less(
                    head,
                    fresh,
                    made,
                    chapter_total(items),
                    at,
                    chapters_in(chapter),
                );
                lemma_foreign_less(
                    tail,
                    fresh,
                    made,
                    chapter_total(items),
                    at,
                    chapters_in(chapter),
                );
                lemma_foreign_join(head, early, fresh, at, chapters_in(chapter));
                assert(all =~= (head + early) + late + tail);
                lemma_planted_page_in_step(
                    all,
                    head + early,
                    tail,
                    config,
                    chapter,
                    parent,
                    fresh,
                    at,
                );
            },
            BookItem::Separator => {
                assert(planted(config, items, parent, fresh, made) =~= early);
                lemma_planted_items_in_step(all, head, tail, config, front, parent, fresh, made);
            },
        }
    }
}

/// The planted pages of a level, among pages that use none of their ids and
/// are no children of the level's parent page: the pages are in step with the
/// level.
proof fn lemma_planted_level_in_step(
    all: Seq<Held>,
    head: Seq<Held>,
    tail: Seq<Held>,
    config: ConfluenceConfig,
    items: Seq<BookItem>,
    parent: ParentPageView,
    fresh: spec_fn(nat) -> i64,
    made: nat,
)
    requires
        never_twice(fresh, made, made + chapter_total(items)),
        all == head + planted(config, items, parent, fresh, made) + tail,
        foreign(head, fresh, made, chapter_total(items)),
        foreign(tail, fresh, made, chapter_total(items)),
        outside(parent.id, fresh, made, chapter_total(items)),
        no_child(head, parent.id),
        no_child(tail, parent.id),
        titles_differ(config, items),
    ensures
        in_step(all, config, items, parent, fresh, made),
    decreases items, 2nat,
{
    let middle = planted(config, items, parent, fresh, made);
    lemma_listed_join(head + middle, tail, parent.id);
    lemma_listed_join(head, middle, parent.id);
    lemma_listed_none(head, parent.id);
    lemma_listed_none(tail, parent.id);
    lemma_planted_listed(config, items, parent, fresh, made);
    assert(listed(all, parent.id) =~= tops(config, items, parent, fresh, made));
    lemma_planted_items_in_step(all, head, tail, config, items, parent, fresh, made);
}

/// After a pass over a new book the pages are in step with the book, and no
/// two of them have the same id.
proof fn lemma_planted_book_is_in_step(
    service: Service,
    config: ConfluenceConfig,
    items: Seq<BookItem>,
    parent: ParentPageView,
)
    requires
        never_twice(service.fresh, service.made, service.made + chapter_total(items)),
        unused(service, service.made + chapter_total(items)),
        not_to_come(service, parent.id, service.made + chapter_total(items)),
        listed(service.pages, parent.id).len() == 0,
        unique_ids(service.pages),
        titles_differ(config, items),
    ensures
        in_step(
            service.pages + planted(config, items, parent, service.fresh, service.made),
            config,
            items,
            parent,
            service.fresh,
            service.made,
        ),
        unique_ids(service.pages + planted(config, items, parent, service.fresh, service.made)),
{
    let fresh = service.fresh;
    let made = service.made;
    let count = chapter_total(items);
    let new = planted(config, items, parent, fresh, made);
    let all = service.pages + new;
    let none = Seq::<Held>::empty();
    lemma_planted_is_well(config, items, parent, fresh, made);
    lemma_listed_some(service.pages, parent.id);
    assert(foreign(service.pages, fresh, made, count)) by {
        assert forall|i: int, k: nat|
            #![trigger service.pages[i], fresh_id(fresh, k)]
            0 <= i < service.pages.len() && made <= k < made + count implies service.pages[i].id
            != fresh_id(fresh, k) && service.pages[i].parent != fresh_id(fresh, k) by {
            assert(service.made <= k < service.made + count);
        }
    }
    assert(all =~= service.pages + new + none);
    lemma_planted_level_in_step(all, service.pages, none, config, items, parent, fresh, made);
    assert forall|i: int, j: int| 0 <= i < j < all.len() implies (#[trigger] all[i]).id != (
    #[trigger] all[j]).id by {
        let old = service.pages.len() as int;
        if j < old {
            assert(all[i] == service.pages[i] && all[j] == service.pages[j]);
        } else {
            assert(all[j] == new[j - old]);
            assert(new[j - old].id == fresh_id(fresh, (made + (j - old)) as nat));
            if i < old {
                assert(all[i] == service.pages[i]);
                assert(service.pages[i].id != fresh_id(fresh, (made + (j - old)) as nat));
            } else {
                assert(all[i] == new[i - old]);
                assert(new[i - old].id == fresh_id(fresh, (made + (i - old)) as nat));
                assert(fresh_id(fresh, (made + (i - old)) as nat) != fresh_id(
                    fresh,
                    (made + (j - old)) as nat,
                ));
            }
        }
    }
}

/// A second pass over a book that a first pass has brought to pages: where
/// the chapters of every level have titles of their own, the second pass
/// creates no page and deletes none. It stores each page that the first pass
/// made once more, under the same id, and leaves every other page alone.
pub proof fn lemma_second_pass_updates(
    service: Service,
    config: ConfluenceConfig,
    items: Seq<BookItem>,
    parent: ParentPageView,
)
    requires
        never_twice(service.fresh, service.made, service.made + chapter_total(items)),
        unused(service, service.made + chapter_total(items)),
        not_to_come(service, parent.id, service.made + chapter_total(items)),
        listed(service.pages, parent.id).len() == 0,
        unique_ids(service.pages),
        titles_differ(config, items),
    ensures
        ({
            let first = pass_level(service, config, items, parent);
            let second = pass_level(first, config, items, parent);
            &&& first.pages == service.pages + planted(
                config,
                items,
                parent,
                service.fresh,
                service.made,
            )
            &&& second.pages == raised(
                first.pages,
                ids_from(service.fresh, service.made, chapter_total(items)),
            )
            &&& second.made == first.made
        }),
{
    lemma_new_level(service, config, items, parent, service.made + chapter_total(items));
    lemma_planted_book_is_in_step(service, config, items, parent);
    let first = pass_level(service, config, items, parent);
    lemma_known_book_is_updated(first, config, items, parent, service.made);
}

} // verus!
