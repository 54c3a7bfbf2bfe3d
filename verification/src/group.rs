//! One level of the book: which chapter has which page, and which pages are
//! left over.

use crate::book::BookItem;
use crate::config::ConfluenceConfig;
use crate::pages::{PageSummary, PageSummaryView};
use vstd::prelude::*;

verus! {

/// The listed children as plain values.
pub open spec fn summaries(children: Seq<PageSummary>) -> Seq<PageSummaryView> {
    children.map_values(|child: PageSummary| child@)
}

/// The highest index of a child with the title `title`, or -1 where there is
/// none.
pub open spec fn last_titled(children: Seq<PageSummaryView>, title: Seq<char>) -> int
    decreases children.len(),
{
    if children.len() == 0 {
        -1
    } else if children.last().title == title {
        children.len() - 1
    } else {
        last_titled(children.drop_last(), title)
    }
}

/// The outcome of matching the chapters of one level with the children of
/// their parent page.
pub struct Matching {
    /// For each chapter, in order, the page that it already has.
    pub existing: Seq<Option<i64>>,
    /// The children that no chapter took, in the order of the listing.
    pub remaining: Seq<PageSummaryView>,
}

/// Matches the titles one after another, in their order. A title takes the
/// last of the children still there that bears it; that child is then gone
/// for the titles after it.
pub open spec fn match_titles(titles: Seq<Seq<char>>, children: Seq<PageSummaryView>) -> Matching
    decreases titles.len(),
{
    if titles.len() == 0 {
        Matching { existing: Seq::empty(), remaining: children }
    } else {
        let before = match_titles(titles.drop_last(), children);
        let found = last_titled(before.remaining, titles.last());
        if found < 0 {
            Matching { existing: before.existing.push(None), remaining: before.remaining }
        } else {
            Matching {
                existing: before.existing.push(Some(before.remaining[found].id)),
                remaining: before.remaining.remove(found),
            }
        }
    }
}

/// The child that a chapter with the title `title` takes where no chapter
/// before it took any: the last one with that title.
pub open spec fn last_child_titled(children: Seq<PageSummaryView>, title: Seq<char>) -> Option<
    PageSummaryView,
> {
    let found = last_titled(children, title);
    if found < 0 {
        None
    } else {
        Some(children[found])
    }
}

/// `last_titled` gives the highest index with the title, and -1 only where no
/// child has it.
pub proof fn lemma_last_titled(children: Seq<PageSummaryView>, title: Seq<char>)
    ensures
        -1 <= last_titled(children, title) < children.len(),
        last_titled(children, title) >= 0 ==> children[last_titled(children, title)].title
            == title,
        forall|k: int|
            last_titled(children, title) < k < children.len() ==> (#[trigger] children[k]).title
                != title,
    decreases children.len(),
{
    if children.len() > 0 && children.last().title != title {
        let front = children.drop_last();
        lemma_last_titled(front, title);
        assert forall|k: int| last_titled(children, title) < k < children.len() implies (
        #[trigger] children[k]).title != title by {
            if k < front.len() {
                assert(front[k] == children[k]);
            }
        }
    }
}

/// The matching gives every title an entry.
pub proof fn lemma_match_lengths(titles: Seq<Seq<char>>, children: Seq<PageSummaryView>)
    ensures
        match_titles(titles, children).existing.len() == titles.len(),
        match_titles(titles, children).remaining.len() <= children.len(),
    decreases titles.len(),
{
    if titles.len() > 0 {
        lemma_match_lengths(titles.drop_last(), children);
        lemma_last_titled(match_titles(titles.drop_last(), children).remaining, titles.last());
    }
}

/// With no children under the parent page every chapter is new and nothing is
/// left to delete.
pub proof fn lemma_match_without_children(titles: Seq<Seq<char>>)
    ensures
        match_titles(titles, Seq::empty()).existing.len() == titles.len(),
        forall|i: int|
            0 <= i < titles.len() ==> (#[trigger] match_titles(
                titles,
                Seq::empty(),
            ).existing[i]) is None,
        match_titles(titles, Seq::empty()).remaining.len() == 0,
    decreases titles.len(),
{
    if titles.len() > 0 {
        lemma_match_without_children(titles.drop_last());
    }
}

/// The tie-break: where several children bear the title of the one chapter,
/// the chapter takes the last of them, and the others stay behind as orphans,
/// each at its place.
pub proof fn lemma_later_child_wins(
    children: Seq<PageSummaryView>,
    title: Seq<char>,
    earlier: int,
    later: int,
)
    requires
        0 <= earlier < later < children.len(),
        children[earlier].title == title,
        children[later].title == title,
        forall|k: int| later < k < children.len() ==> (#[trigger] children[k]).title != title,
    ensures
        match_titles(seq![title], children).existing == seq![Some(children[later].id)],
        match_titles(seq![title], children).remaining == children.remove(later),
        children.remove(later)[earlier] == children[earlier],
{
    let titles = seq![title];
    assert(titles.drop_last() =~= Seq::<Seq<char>>::empty());
    assert(titles.last() == title);
    lemma_last_titled(children, title);
    assert(last_titled(children, title) == later);
    let before = match_titles(titles.drop_last(), children);
    assert(before.remaining == children);
    assert(before.existing.push(Some(children[later].id)) =~= seq![Some(children[later].id)]);
}

/// Taking out an element that a filter drops does not change what the filter
/// keeps.
proof fn lemma_filter_remove<A>(s: Seq<A>, j: int, pred: spec_fn(A) -> bool)
    requires
        0 <= j < s.len(),
        !pred(s[j]),
    ensures
        s.remove(j).filter(pred) == s.filter(pred),
{
    let front = s.take(j);
    let one = seq![s[j]];
    let back = s.skip(j + 1);
    assert(s =~= front + one + back);
    assert(s.remove(j) =~= front + back);
    Seq::filter_distributes_over_add(front, back, pred);
    Seq::filter_distributes_over_add(front + one, back, pred);
    Seq::filter_distributes_over_add(front, one, pred);
    reveal(Seq::filter);
    assert(one.drop_last() =~= Seq::<A>::empty());
    assert(Seq::<A>::empty().filter(pred) =~= Seq::<A>::empty());
    assert(one.filter(pred) =~= Seq::<A>::empty());
    assert(front.filter(pred) + one.filter(pred) =~= front.filter(pred));
}

/// The matching takes none of the children that `pred` keeps, where no title
/// is the title of such a child.
proof fn lemma_remaining_filter(
    titles: Seq<Seq<char>>,
    children: Seq<PageSummaryView>,
    pred: spec_fn(PageSummaryView) -> bool,
)
    requires
        forall|i: int, child: PageSummaryView|
            #![trigger titles[i], pred(child)]
            0 <= i < titles.len() && pred(child) ==> child.title != titles[i],
    ensures
        match_titles(titles, children).remaining.filter(pred) == children.filter(pred),
    decreases titles.len(),
{
    if titles.len() > 0 {
        let front = titles.drop_last();
        assert forall|i: int, child: PageSummaryView|
            #![trigger front[i], pred(child)]
            0 <= i < front.len() && pred(child) implies child.title != front[i] by {
            assert(front[i] == titles[i]);
        }
        lemma_remaining_filter(front, children, pred);
        let before = match_titles(front, children);
        let found = last_titled(before.remaining, titles.last());
        lemma_last_titled(before.remaining, titles.last());
        if found >= 0 {
            assert(titles[titles.len() - 1] == titles.last());
            lemma_filter_remove(before.remaining, found, pred);
        }
    }
}

/// Whether no chapter of the level has the child's title.
pub open spec fn unclaimed(titles: Seq<Seq<char>>) -> spec_fn(PageSummaryView) -> bool {
    |child: PageSummaryView| !titles.contains(child.title)
}

/// The orphans: the children whose title no chapter of the level has are left
/// over one and all, each as often as it was listed and in the order of the
/// listing, whatever the order of the chapters.
pub proof fn lemma_orphans_are_left(titles: Seq<Seq<char>>, children: Seq<PageSummaryView>)
    ensures
        match_titles(titles, children).remaining.filter(unclaimed(titles)) == children.filter(
            unclaimed(titles),
        ),
{
    let pred = unclaimed(titles);
    assert forall|i: int, child: PageSummaryView|
        #![trigger titles[i], pred(child)]
        0 <= i < titles.len() && pred(child) implies child.title != titles[i] by {
        assert(titles.contains(titles[i]));
    }
    lemma_remaining_filter(titles, children, pred);
}

/// What is left over was listed.
pub proof fn lemma_orphans_were_listed(
    titles: Seq<Seq<char>>,
    children: Seq<PageSummaryView>,
    child: PageSummaryView,
)
    requires
        match_titles(titles, children).remaining.contains(child),
    ensures
        children.contains(child),
    decreases titles.len(),
{
    if titles.len() > 0 {
        let before = match_titles(titles.drop_last(), children);
        let found = last_titled(before.remaining, titles.last());
        lemma_last_titled(before.remaining, titles.last());
        if found >= 0 {
            let after = before.remaining.remove(found);
            let at = choose|i: int| 0 <= i < after.len() && after[i] == child;
            if at < found {
                assert(before.remaining[at] == child);
            } else {
                assert(before.remaining[at + 1] == child);
            }
        }
        lemma_orphans_were_listed(titles.drop_last(), children, child);
    }
}

/// Taking out a child with another title does not change which child is the
/// last with the title.
proof fn lemma_remove_other_title(children: Seq<PageSummaryView>, at: int, title: Seq<char>)
    requires
        0 <= at < children.len(),
        children[at].title != title,
    ensures
        last_child_titled(children.remove(at), title) == last_child_titled(children, title),
    decreases children.len(),
{
    let fewer = children.remove(at);
    let front = children.drop_last();
    lemma_last_titled(front, title);
    if at == children.len() - 1 {
        assert(fewer =~= front);
        if last_titled(front, title) >= 0 {
            assert(children[last_titled(front, title)] == front[last_titled(front, title)]);
        }
    } else {
        assert(fewer.len() == children.len() - 1);
        assert(fewer.last() == children.last());
        assert(fewer.drop_last() =~= front.remove(at));
        if children.last().title == title {
            assert(last_titled(fewer, title) == fewer.len() - 1);
            assert(last_titled(children, title) == children.len() - 1);
        } else {
            lemma_remove_other_title(children.drop_last(), at, title);
            lemma_last_titled(children.drop_last(), title);
            lemma_last_titled(fewer.drop_last(), title);
            let a = last_titled(children.drop_last(), title);
            let b = last_titled(fewer.drop_last(), title);
            if a >= 0 {
                assert(children[a] == children.drop_last()[a]);
            }
            if b >= 0 {
                assert(fewer[b] == fewer.drop_last()[b]);
            }
        }
    }
}

/// Titles other than `title` take no child with that title.
proof fn lemma_untouched_title(
    titles: Seq<Seq<char>>,
    children: Seq<PageSummaryView>,
    title: Seq<char>,
)
    requires
        !titles.contains(title),
    ensures
        last_child_titled(match_titles(titles, children).remaining, title) == last_child_titled(
            children,
            title,
        ),
    decreases titles.len(),
{
    if titles.len() > 0 {
        let front = titles.drop_last();
        assert forall|i: int| 0 <= i < front.len() implies front[i] != title by {
            assert(titles[i] == front[i]);
            assert(titles.contains(titles[i]));
        }
        lemma_untouched_title(front, children, title);
        let before = match_titles(front, children);
        let found = last_titled(before.remaining, titles.last());
        lemma_last_titled(before.remaining, titles.last());
        if found >= 0 {
            assert(titles.contains(titles[titles.len() - 1]));
            lemma_remove_other_title(before.remaining, found, title);
        }
    }
}

/// What a chapter is matched with does not depend on the chapters after it.
proof fn lemma_existing_prefix(titles: Seq<Seq<char>>, children: Seq<PageSummaryView>, i: int)
    requires
        0 <= i < titles.len(),
    ensures
        match_titles(titles, children).existing[i] == match_titles(
            titles.take(i + 1),
            children,
        ).existing[i],
    decreases titles.len(),
{
    lemma_match_lengths(titles.drop_last(), children);
    if i + 1 < titles.len() {
        lemma_existing_prefix(titles.drop_last(), children, i);
        assert(titles.drop_last().take(i + 1) =~= titles.take(i + 1));
    } else {
        assert(titles.take(i + 1) =~= titles);
    }
}

/// Where the chapters of a level have titles that differ from one another,
/// each chapter gets the last listed child with its title, whatever the other
/// chapters are and in whatever order they stand; a chapter without such a
/// child has no page yet.
pub proof fn lemma_match_by_title(titles: Seq<Seq<char>>, children: Seq<PageSummaryView>, i: int)
    requires
        titles.no_duplicates(),
        0 <= i < titles.len(),
    ensures
        match_titles(titles, children).existing[i] == match last_child_titled(children, titles[i]) {
            Some(child) => Some(child.id),
            None => None,
        },
{
    let upto = titles.take(i + 1);
    let front = upto.drop_last();
    lemma_existing_prefix(titles, children, i);
    assert(upto.last() == titles[i]);
    assert forall|k: int| 0 <= k < front.len() implies front[k] != titles[i] by {
        assert(front[k] == titles[k]);
    }
    lemma_untouched_title(front, children, titles[i]);
    lemma_match_lengths(front, children);
    lemma_last_titled(match_titles(front, children).remaining, titles[i]);
}

/// The children that are left over where the titles in `wanted` each take
/// the last child that bears them, told without any order of the titles: read
/// from the last child to the first, a child whose title is still wanted is
/// taken, and every other child is left.
pub open spec fn left_over(children: Seq<PageSummaryView>, wanted: Set<Seq<char>>) -> Seq<
    PageSummaryView,
>
    decreases children.len(),
{
    if children.len() == 0 {
        Seq::empty()
    } else if wanted.contains(children.last().title) {
        left_over(children.drop_last(), wanted.remove(children.last().title))
    } else {
        left_over(children.drop_last(), wanted).push(children.last())
    }
}

/// One more title takes, of what the others leave, the last child that bears
/// it.
proof fn lemma_left_over_one_more(
    children: Seq<PageSummaryView>,
    wanted: Set<Seq<char>>,
    title: Seq<char>,
)
    requires
        !wanted.contains(title),
    ensures
        left_over(children, wanted.insert(title)) == ({
            let left = left_over(children, wanted);
            let found = last_titled(left, title);
            if found < 0 {
                left
            } else {
                left.remove(found)
            }
        }),
    decreases children.len(),
{
    if children.len() > 0 {
        let front = children.drop_last();
        let last = children.last();
        let more = wanted.insert(title);
        if wanted.contains(last.title) {
            let fewer = wanted.remove(last.title);
            assert(more.remove(last.title) =~= fewer.insert(title));
            lemma_left_over_one_more(front, fewer, title);
        } else if last.title == title {
            assert(more.remove(title) =~= wanted);
            let left = left_over(front, wanted).push(last);
            assert(left.last() == last);
            assert(last_titled(left, title) == left.len() - 1);
            assert(left.remove(left.len() - 1) =~= left_over(front, wanted));
        } else {
            lemma_left_over_one_more(front, wanted, title);
            let before = left_over(front, wanted);
            let left = before.push(last);
            assert(left.last() == last);
            assert(left.drop_last() =~= before);
            lemma_last_titled(before, title);
            let found = last_titled(before, title);
            if found >= 0 {
                assert(left.remove(found) =~= before.remove(found).push(last));
            }
        }
    }
}

/// Where the titles differ from one another, what the matching leaves over is
/// `left_over` of the set of the titles.
pub proof fn lemma_remaining_is_left_over(titles: Seq<Seq<char>>, children: Seq<PageSummaryView>)
    requires
        titles.no_duplicates(),
    ensures
        match_titles(titles, children).remaining == left_over(children, titles.to_set()),
    decreases titles.len(),
{
    if titles.len() == 0 {
        assert(titles.to_set() =~= Set::<Seq<char>>::empty());
        lemma_left_over_of_none(children);
    } else {
        let front = titles.drop_last();
        let title = titles.last();
        assert forall|i: int, j: int| 0 <= i < j < front.len() implies front[i] != front[j] by {
            assert(front[i] == titles[i] && front[j] == titles[j]);
        }
        lemma_remaining_is_left_over(front, children);
        assert(!front.to_set().contains(title)) by {
            if front.contains(title) {
                let at = choose|at: int| 0 <= at < front.len() && front[at] == title;
                assert(titles[at] == titles[titles.len() - 1]);
            }
        }
        assert(titles.to_set() =~= front.to_set().insert(title)) by {
            assert forall|t: Seq<char>| titles.to_set().contains(t) implies front.to_set().insert(
                title,
            ).contains(t) by {
                let at = choose|at: int| 0 <= at < titles.len() && titles[at] == t;
                if at < front.len() {
                    assert(front[at] == t);
                }
            }
            assert forall|t: Seq<char>| front.to_set().insert(title).contains(
                t,
            ) implies titles.to_set().contains(t) by {
                if t == title {
                    assert(titles[titles.len() - 1] == t);
                } else {
                    let at = choose|at: int| 0 <= at < front.len() && front[at] == t;
                    assert(titles[at] == t);
                }
            }
        }
        lemma_left_over_one_more(children, front.to_set(), title);
    }
}

/// Where no title is wanted, every child is left over.
proof fn lemma_left_over_of_none(children: Seq<PageSummaryView>)
    ensures
        left_over(children, Set::empty()) == children,
    decreases children.len(),
{
    if children.len() > 0 {
        lemma_left_over_of_none(children.drop_last());
        assert(children.drop_last().push(children.last()) =~= children);
    }
}

/// Whether no child after the one at `at` bears its title.
pub open spec fn last_of_its_title(children: Seq<PageSummaryView>, at: int) -> bool {
    forall|k: int| at < k < children.len() ==> (#[trigger] children[k]).title != children[at].title
}

/// Whether a chapter takes the child at `at`: its title is wanted, and it is
/// the last child with that title.
pub open spec fn taken(children: Seq<PageSummaryView>, wanted: Set<Seq<char>>, at: int) -> bool {
    wanted.contains(children[at].title) && last_of_its_title(children, at)
}

/// The first `upto` children without those that a chapter takes, each at its
/// place among the others.
pub open spec fn not_taken(
    children: Seq<PageSummaryView>,
    wanted: Set<Seq<char>>,
    upto: nat,
) -> Seq<PageSummaryView>
    decreases upto,
{
    if upto == 0 {
        Seq::empty()
    } else {
        let front = not_taken(children, wanted, (upto - 1) as nat);
        if taken(children, wanted, upto - 1) {
            front
        } else {
            front.push(children[upto - 1])
        }
    }
}

/// The titles that are wanted and that no child from `from` on bears.
spec fn still_wanted(
    children: Seq<PageSummaryView>,
    wanted: Set<Seq<char>>,
    from: int,
) -> Set<Seq<char>> {
    Set::new(
        |title: Seq<char>|
            wanted.contains(title) && forall|k: int|
                from <= k < children.len() ==> (#[trigger] children[k]).title != title,
    )
}

/// What is left over of the first `upto` children, for the titles that no
/// later child bears, is those of them that are not taken.
proof fn lemma_left_over_by_place(
    children: Seq<PageSummaryView>,
    wanted: Set<Seq<char>>,
    upto: nat,
)
    requires
        upto <= children.len(),
    ensures
        left_over(children.take(upto as int), still_wanted(children, wanted, upto as int))
            == not_taken(children, wanted, upto),
    decreases upto,
{
    if upto > 0 {
        let at = upto - 1;
        let here = children.take(upto as int);
        let now = still_wanted(children, wanted, upto as int);
        let before = still_wanted(children, wanted, at);
        let title = children[at].title;
        assert(here.last() == children[at]);
        assert(here.drop_last() =~= children.take(at));
        lemma_left_over_by_place(children, wanted, at as nat);
        assert(now.contains(title) == taken(children, wanted, at));
        if now.contains(title) {
            assert(now.remove(title) =~= before);
        } else {
            assert(now =~= before) by {
                assert forall|t: Seq<char>| now.contains(t) implies before.contains(t) by {
                    assert forall|k: int| at <= k < children.len() implies (
                    #[trigger] children[k]).title != t by {
                        if k == at {
                            assert(t != title);
                        }
                    }
                }
            }
        }
    }
}

/// Which children are left over, place by place: where the chapters of a
/// level have titles that differ from one another, the last child with the
/// title of a chapter is taken and is not left over, and every other child is
/// left over, once, at its place among the others.
pub proof fn lemma_remaining_by_place(titles: Seq<Seq<char>>, children: Seq<PageSummaryView>)
    requires
        titles.no_duplicates(),
    ensures
        match_titles(titles, children).remaining == not_taken(
            children,
            titles.to_set(),
            children.len(),
        ),
{
    let wanted = titles.to_set();
    lemma_remaining_is_left_over(titles, children);
    lemma_left_over_by_place(children, wanted, children.len());
    assert(children.take(children.len() as int) =~= children);
    assert(still_wanted(children, wanted, children.len() as int) =~= wanted);
}

/// The order of the chapters does not matter: where the chapters of a level
/// have titles that differ from one another, the same chapters in another
/// order leave the same children over, in the same order, and a chapter is
/// matched with the same page wherever it stands.
pub proof fn lemma_order_of_chapters_is_free(
    titles: Seq<Seq<char>>,
    shuffled: Seq<Seq<char>>,
    children: Seq<PageSummaryView>,
)
    requires
        titles.no_duplicates(),
        shuffled.to_multiset() == titles.to_multiset(),
    ensures
        match_titles(shuffled, children).remaining == match_titles(titles, children).remaining,
        forall|i: int, j: int|
            0 <= i < titles.len() && 0 <= j < shuffled.len() && titles[i] == shuffled[j]
                ==> #[trigger] match_titles(shuffled, children).existing[j]
                == #[trigger] match_titles(titles, children).existing[i],
{
    broadcast use vstd::seq_lib::group_to_multiset_ensures;

    titles.lemma_multiset_has_no_duplicates();
    assert(shuffled.no_duplicates()) by {
        assert forall|a: Seq<char>| shuffled.to_multiset().count(a) <= 1 by {}
        shuffled.lemma_multiset_has_no_duplicates_conv();
    }
    assert(shuffled.to_set() =~= titles.to_set()) by {
        assert forall|t: Seq<char>| shuffled.to_set().contains(t) <==> titles.to_set().contains(
            t,
        ) by {
            assert(shuffled.contains(t) <==> shuffled.to_multiset().count(t) > 0);
            assert(titles.contains(t) <==> titles.to_multiset().count(t) > 0);
        }
    }
    lemma_remaining_is_left_over(titles, children);
    lemma_remaining_is_left_over(shuffled, children);
    assert forall|i: int, j: int|
        0 <= i < titles.len() && 0 <= j < shuffled.len() && titles[i]
            == shuffled[j] implies #[trigger] match_titles(shuffled, children).existing[j]
        == #[trigger] match_titles(titles, children).existing[i] by {
        lemma_match_by_title(titles, children, i);
        lemma_match_by_title(shuffled, children, j);
    }
}

/// Where every chapter of a level has a title of its own and one listed child
/// bears a chapter's title, the chapter takes that child: its page is found
/// again, whatever else is listed.
pub proof fn lemma_known_chapter_is_found(
    titles: Seq<Seq<char>>,
    children: Seq<PageSummaryView>,
    i: int,
    j: int,
)
    requires
        titles.no_duplicates(),
        0 <= i < titles.len(),
        0 <= j < children.len(),
        children[j].title == titles[i],
        forall|k: int| 0 <= k < children.len() && k != j ==> (#[trigger] children[k]).title
            != titles[i],
    ensures
        match_titles(titles, children).existing[i] == Some(children[j].id),
{
    lemma_match_by_title(titles, children, i);
    lemma_last_titled(children, titles[i]);
}

/// The page titles of the chapters among `items`, in order.
pub open spec fn chapter_titles(config: ConfluenceConfig, items: Seq<BookItem>) -> Seq<Seq<char>>
    decreases items.len(),
{
    if items.len() == 0 {
        Seq::empty()
    } else {
        let front = chapter_titles(config, items.drop_last());
        match items.last() {
            BookItem::Chapter(chapter) => front.push(config.title_of(chapter.name@)),
            BookItem::Separator => front,
        }
    }
}

/// The positions of the chapters among `items`, in order.
pub open spec fn chapter_positions(items: Seq<BookItem>) -> Seq<int>
    decreases items.len(),
{
    if items.len() == 0 {
        Seq::empty()
    } else {
        let front = chapter_positions(items.drop_last());
        match items.last() {
            BookItem::Chapter(_) => front.push(items.len() - 1),
            BookItem::Separator => front,
        }
    }
}

/// One chapter to render: where it stands among the items of its level, and
/// the page it already has.
#[derive(Debug, Clone, Copy)]
pub struct RenderJob {
    pub item: usize,
    pub existing_page_id: Option<i64>,
}

/// What is to be done for one level of the book once the children of its
/// parent page are known: the chapters to render, which may be rendered in any
/// order or all at once, and after them the pages to delete.
#[derive(Debug)]
pub struct GroupPlan {
    pub jobs: Vec<RenderJob>,
    pub orphans: Vec<PageSummary>,
}

impl GroupPlan {
    /// Where the chapters of the jobs stand among the items of the level.
    pub open spec fn positions(self) -> Seq<int> {
        self.jobs@.map_values(|job: RenderJob| job.item as int)
    }

    /// The pages that the chapters of the jobs already have.
    pub open spec fn existing(self) -> Seq<Option<i64>> {
        self.jobs@.map_values(|job: RenderJob| job.existing_page_id)
    }
}

/// The index of the last child with the title `title`.
fn find_last(children: &Vec<PageSummary>, title: &String) -> (found: Option<usize>)
    ensures
        match found {
            Some(i) => i < children.len() && i as int == last_titled(
                summaries(children@),
                title@,
            ),
            None => last_titled(summaries(children@), title@) < 0,
        },
{
    let mut i = children.len();
    assert(summaries(children@).take(i as int) =~= summaries(children@));
    while i > 0
        invariant
            i <= children.len(),
            last_titled(summaries(children@), title@) == last_titled(
                summaries(children@).take(i as int),
                title@,
            ),
        decreases i,
    {
        let ghost upto = summaries(children@).take(i as int);
        i = i - 1;
        assert(upto.last() == children@[i as int]@);
        if children[i].title == *title {
            return Some(i);
        }
        assert(upto.drop_last() =~= summaries(children@).take(i as int));
    }
    None
}

/// Plans one level of the book. `listed` is what the remote service answered
/// when asked for the children of the level's parent page. Where that failed
/// the level fails with the service's error, as it came; otherwise every
/// chapter among `items` gets a job, matched by its title as `match_titles`
/// says, and the children that no chapter took are the orphans.
pub fn render_group<E>(
    config: &ConfluenceConfig,
    items: &Vec<BookItem>,
    listed: Result<Vec<PageSummary>, E>,
) -> (planned: Result<GroupPlan, E>)
    ensures
        match listed {
            Ok(children) => {
                let matching = match_titles(
                    chapter_titles(*config, items@),
                    summaries(children@),
                );
                &&& planned matches Ok(plan)
                &&& plan.positions() == chapter_positions(items@)
                &&& plan.existing() == matching.existing
                &&& summaries(plan.orphans@) == matching.remaining
            },
            Err(e) => planned == Err::<GroupPlan, E>(e),
        },
{
    let mut children = match listed {
        Ok(children) => children,
        Err(e) => {
            return Err(e);
        },
    };
    let ghost listing = summaries(children@);
    let mut jobs: Vec<RenderJob> = Vec::new();
    let n = items.len();
    let mut k: usize = 0;
    assert(items@.take(0) =~= Seq::<BookItem>::empty());
    while k < n
        invariant
            n == items.len(),
            k <= n,
            jobs@.map_values(|job: RenderJob| job.item as int) == chapter_positions(
                items@.take(k as int),
            ),
            jobs@.map_values(|job: RenderJob| job.existing_page_id) == match_titles(
                chapter_titles(*config, items@.take(k as int)),
                listing,
            ).existing,
            summaries(children@) == match_titles(
                chapter_titles(*config, items@.take(k as int)),
                listing,
            ).remaining,
        decreases n - k,
    {
        let ghost seen = items@.take(k as int);
        let ghost next = items@.take(k + 1);
        assert(next.drop_last() =~= seen);
        assert(next.last() == items@[k as int]);
        match &items[k] {
            BookItem::Chapter(chapter) => {
                let title = config.chapter_title(chapter);
                let ghost titles = chapter_titles(*config, next);
                assert(titles.drop_last() =~= chapter_titles(*config, seen));
                assert(titles.last() == title@);
                let ghost before = children@;
                let existing_page_id = match find_last(&children, &title) {
                    Some(i) => {
                        let child = children.remove(i);
                        assert(summaries(children@) =~= summaries(before).remove(i as int));
                        Some(child.id)
                    },
                    None => None,
                };
                let ghost old_jobs = jobs@;
                jobs.push(RenderJob { item: k, existing_page_id });
                assert(jobs@.map_values(|job: RenderJob| job.item as int) =~= old_jobs.map_values(
                    |job: RenderJob| job.item as int,
                ).push(k as int));
                assert(jobs@.map_values(|job: RenderJob| job.existing_page_id)
                    =~= old_jobs.map_values(|job: RenderJob| job.existing_page_id).push(
                    existing_page_id,
                ));
            },
            BookItem::Separator => {},
        }
        k = k + 1;
    }
    assert(items@.take(n as int) =~= items@);
    Ok(GroupPlan { jobs, orphans: children })
}

} // verus!
