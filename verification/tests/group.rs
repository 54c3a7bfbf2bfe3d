use mdbook_confluence::book::{BookItem, Chapter};
use mdbook_confluence::config::ConfluenceConfig;
use mdbook_confluence::error::Error;
use mdbook_confluence::group::render_group;
use mdbook_confluence::pages::PageSummary;
use std::path::PathBuf;

fn chapter(name: &str) -> BookItem {
    BookItem::Chapter(Chapter {
        name: name.to_string(),
        content: String::new(),
        path: PathBuf::from(format!("{}.md", name)),
        sub_items: vec![],
    })
}

fn child(title: &str, id: i64) -> PageSummary {
    PageSummary {
        id,
        space: "DOC".to_string(),
        title: title.to_string(),
        url: format!("http://wiki/{}", id),
    }
}

fn plan(prefix: Option<&str>, items: &Vec<BookItem>, children: Vec<PageSummary>) -> (Vec<(usize, Option<i64>)>, Vec<i64>) {
    let config = ConfluenceConfig { title_prefix: prefix.map(|p| p.to_string()), ..ConfluenceConfig::default() };
    let plan = render_group(&config, items, Ok::<_, Error>(children)).unwrap();
    (
        plan.jobs.iter().map(|j| (j.item, j.existing_page_id)).collect(),
        plan.orphans.iter().map(|o| o.id).collect(),
    )
}

#[test]
fn new_chapters_have_no_page() {
    let (jobs, orphans) = plan(None, &vec![chapter("Intro"), chapter("Guide")], vec![]);
    assert_eq!(jobs, vec![(0, None), (1, None)]);
    assert_eq!(orphans, Vec::<i64>::new());
}

#[test]
fn matched_child_is_taken_and_the_rest_is_orphaned() {
    let (jobs, orphans) = plan(None, &vec![chapter("Intro")], vec![child("Intro", 7), child("Old", 9)]);
    assert_eq!(jobs, vec![(0, Some(7))]);
    assert_eq!(orphans, vec![9]);
}

#[test]
fn later_child_wins_a_shared_title() {
    let (jobs, orphans) = plan(
        None,
        &vec![chapter("Intro")],
        vec![child("Intro", 1), child("Other", 2), child("Intro", 3), child("Last", 4)],
    );
    assert_eq!(jobs, vec![(0, Some(3))]);
    assert_eq!(orphans, vec![1, 2, 4]);
}

#[test]
fn orphans_do_not_depend_on_chapter_order() {
    let children = || vec![child("A", 1), child("X", 2), child("B", 3), child("Y", 4)];
    let (jobs, orphans) = plan(None, &vec![chapter("A"), chapter("B")], children());
    assert_eq!(jobs, vec![(0, Some(1)), (1, Some(3))]);
    assert_eq!(orphans, vec![2, 4]);
    let (jobs, orphans) = plan(None, &vec![chapter("B"), chapter("A")], children());
    assert_eq!(jobs, vec![(0, Some(3)), (1, Some(1))]);
    assert_eq!(orphans, vec![2, 4]);
}

#[test]
fn separators_get_no_job() {
    let items = vec![chapter("A"), BookItem::Separator, chapter("B")];
    let (jobs, orphans) = plan(None, &items, vec![child("B", 5)]);
    assert_eq!(jobs, vec![(0, None), (2, Some(5))]);
    assert_eq!(orphans, Vec::<i64>::new());
}

#[test]
fn prefix_is_part_of_the_title() {
    let items = vec![chapter("Intro")];
    let (jobs, orphans) = plan(Some("Book: "), &items, vec![child("Intro", 1), child("Book: Intro", 2)]);
    assert_eq!(jobs, vec![(0, Some(2))]);
    assert_eq!(orphans, vec![1]);
}

#[test]
fn failed_listing_fails_the_level() {
    let config = ConfluenceConfig::default();
    let planned = render_group(&config, &vec![chapter("A")], Err(Error::Confluence("down".to_string())));
    match planned {
        Err(Error::Confluence(e)) => assert_eq!(e, "down"),
        other => panic!("unexpected: {:?}", other),
    }
}

#[test]
fn config_default_is_disabled_and_empty() {
    let config = ConfluenceConfig::default();
    assert!(!config.enabled);
    assert_eq!(config.url, "");
    assert_eq!(config.username, "");
    assert_eq!(config.password, "");
    assert_eq!(config.title_prefix, None);
    assert_eq!(config.root_page, 0);
}

#[test]
fn chapter_title_puts_the_prefix_first() {
    let with = ConfluenceConfig { title_prefix: Some("Docs - ".to_string()), ..ConfluenceConfig::default() };
    let without = ConfluenceConfig::default();
    if let BookItem::Chapter(c) = chapter("Intro") {
        assert_eq!(with.chapter_title(&c), "Docs - Intro");
        assert_eq!(without.chapter_title(&c), "Intro");
    }
}

#[test]
fn failed_listing_hands_the_error_back_as_it_came() {
    let config = ConfluenceConfig::default();
    let planned = render_group(&config, &vec![chapter("A")], Err::<Vec<PageSummary>, (i32, &str)>((503, "down")));
    assert_eq!(planned.err(), Some((503, "down")));
}

#[test]
fn last_child_with_a_chapters_title_is_never_left_over() {
    let children = || vec![child("A", 1), child("X", 2), child("A", 3), child("B", 4), child("X", 5)];
    for order in [vec!["A", "B"], vec!["B", "A"]] {
        let items: Vec<BookItem> = order.iter().map(|t| chapter(t)).collect();
        let (_, orphans) = plan(None, &items, children());
        assert_eq!(orphans, vec![1, 2, 5]);
    }
}
