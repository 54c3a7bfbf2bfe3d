use mdbook_confluence::book::Chapter;
use mdbook_confluence::config::ConfluenceConfig;
use mdbook_confluence::error::Error;
use mdbook_confluence::markup::parse_markdown;
use mdbook_confluence::pages::{Page, PageSummary, ParentPage};
use mdbook_confluence::renderer::{page_summary, startup, InternalRenderer, Startup, StubRequest, RENDERER_NAME};
use mdbook_confluence::version::ServerVersion;
use std::path::PathBuf;

fn new_renderer(version: &str, prefix: Option<&str>) -> InternalRenderer {
    InternalRenderer {
        server_version: ServerVersion::parse(version).unwrap(),
        config: ConfluenceConfig { title_prefix: prefix.map(|p| p.to_string()), ..ConfluenceConfig::default() },
    }
}

fn intro() -> Chapter {
    Chapter { name: "Intro".to_string(), content: "# Intro".to_string(), path: PathBuf::from("intro.md"), sub_items: vec![] }
}

fn stub() -> Page {
    Page { id: 7, space: "OLD".to_string(), title: "Intro".to_string(), url: "http://wiki/7".to_string(), version: 3 }
}

#[test]
fn chapter_without_a_page_gets_one_created() {
    let r = new_renderer("7.3.0", Some("Book/"));
    let parent = ParentPage { id: 42, space: "DOC".to_string() };
    match r.get_existing_page(&intro(), None, &parent) {
        StubRequest::Create(page) => {
            assert_eq!(page.id, None);
            assert_eq!(page.space, "DOC");
            assert_eq!(page.title, "Book/Intro");
            assert_eq!(page.content, "");
            assert_eq!(page.version, None);
            assert_eq!(page.parent_id, Some(42));
        }
        StubRequest::Fetch(_) => panic!("a create was expected"),
    }
}

#[test]
fn chapter_with_a_page_has_it_fetched() {
    let r = new_renderer("7.3.0", None);
    let parent = ParentPage { id: 42, space: "DOC".to_string() };
    assert!(matches!(r.get_existing_page(&intro(), Some(7), &parent), StubRequest::Fetch(7)));
}

#[test]
fn page_update_carries_id_and_version_of_the_stub() {
    let r = new_renderer("7.3.0", Some("P-"));
    let parent = ParentPage { id: 42, space: "DOC".to_string() };
    let update = r.page_update(&intro(), &stub(), &parent, Ok("body".to_string())).unwrap();
    assert_eq!(update.id, Some(7));
    assert_eq!(update.version, Some(3));
    assert_eq!(update.space, "DOC");
    assert_eq!(update.title, "P-Intro");
    assert_eq!(update.parent_id, Some(42));
    assert_eq!(update.content, r.to_page_content("body"));
}

#[test]
fn page_update_reports_a_failed_serialisation() {
    let r = new_renderer("7.3.0", None);
    let parent = ParentPage { id: 42, space: "DOC".to_string() };
    match r.page_update(&intro(), &stub(), &parent, Err("an error occurred".to_string())) {
        Err(Error::Error(m)) => assert_eq!(m, "Markdown serialization failed: an error occurred"),
        other => panic!("unexpected: {:?}", other),
    }
}

#[test]
fn create_page_content_serialises_the_events() {
    let r = new_renderer("6.0.0", None);
    let parent = ParentPage { id: 42, space: "DOC".to_string() };
    let (update, replaced) = r.create_page_content(&intro(), &stub(), &parent, parse_markdown("a \u{1F600} b \u{1F601}")).unwrap();
    assert_eq!(update.content, r.to_page_content("a \u{1F600} b \u{1F601}"));
    assert!(update.content.contains("<![CDATA[a \u{2E2E} b \u{2E2E}]]>"));
    assert_eq!(replaced, vec!["\u{1F600}", "\u{1F601}"]);
    let newer = new_renderer("7.3.0", None);
    let (update, replaced) = newer.create_page_content(&intro(), &stub(), &parent, parse_markdown("a \u{1F600}")).unwrap();
    assert!(update.content.contains("<![CDATA[a \u{1F600}]]>"));
    assert!(replaced.is_empty());
    assert_eq!(r.replaced_clusters("x\u{1F600}y"), vec!["\u{1F600}"]);
}

#[test]
fn renderer_gate_follows_the_version() {
    assert!(new_renderer("7.3.0", None).supports_emoji());
    assert!(!new_renderer("7.2.1", None).supports_emoji());
    assert_eq!(new_renderer("7.2.1", None).to_cdata("\u{1F600}"), "<![CDATA[\u{2E2E}]]>");
    assert_eq!(new_renderer("7.3.0", None).to_cdata("\u{1F600}"), "<![CDATA[\u{1F600}]]>");
}

#[test]
fn summaries_name_the_page() {
    assert_eq!(page_summary(None, &stub()), "Created 'Intro' http://wiki/7");
    assert_eq!(page_summary(Some(7), &stub()), "Updated 'Intro' http://wiki/7");
}

#[test]
fn parent_page_is_made_from_a_page() {
    let parent = ParentPage::from(stub());
    assert_eq!((parent.id, parent.space.as_str()), (7, "OLD"));
    let summary = PageSummary { id: 9, space: "DOC".to_string(), title: "Old".to_string(), url: String::new() };
    let parent = ParentPage::from(summary);
    assert_eq!((parent.id, parent.space.as_str()), (9, "DOC"));
}

#[test]
fn startup_follows_the_settings() {
    let off = ConfluenceConfig::default();
    assert!(matches!(startup(&off, "0.3.7", "0.3.7"), Startup::Disabled));
    let on = ConfluenceConfig { enabled: true, ..ConfluenceConfig::default() };
    match startup(&on, "0.3.7", "0.3.7") {
        Startup::Render { warning } => assert_eq!(warning, None),
        Startup::Disabled => panic!("enabled"),
    }
    match startup(&on, "0.3.7", "0.4.0") {
        Startup::Render { warning } => assert_eq!(
            warning.unwrap(),
            "Warning: The confluence plugin was built against version 0.3.7 of mdbook, but we're being called from version 0.4.0"
        ),
        Startup::Disabled => panic!("enabled"),
    }
    assert_eq!(RENDERER_NAME, "confluence");
}

#[test]
fn error_messages_name_their_source() {
    assert_eq!(Error::Confluence("Fault".to_string()).message(), "Failed to update Confluence: Fault");
    assert_eq!(Error::MdBook("bad json".to_string()).message(), "MdBook Error: bad json");
    assert_eq!(Error::Error("plain".to_string()).message(), "plain");
}
