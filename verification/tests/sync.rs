use mdbook_confluence::book::{BookItem, Chapter};
use mdbook_confluence::config::ConfluenceConfig;
use mdbook_confluence::error::Error;
use mdbook_confluence::page::{PageStep, PageTask};
use mdbook_confluence::pages::{Page, PageSummary, ParentPage, UpdatePage};
use mdbook_confluence::renderer::{InternalRenderer, StubRequest};
use mdbook_confluence::upload::UploadRequest;
use mdbook_confluence::version::ServerVersion;
use std::path::PathBuf;

#[derive(Clone)]
struct Stored {
    id: i64,
    parent: i64,
    title: String,
    content: String,
    version: i32,
}

#[derive(Default)]
struct Remote {
    pages: Vec<Stored>,
    next_id: i64,
    calls: Vec<String>,
    refuse_title: Option<String>,
    listing_down: bool,
}

impl Remote {
    fn page(&self, p: &Stored) -> Page {
        Page {
            id: p.id,
            space: "DOC".to_string(),
            title: p.title.clone(),
            url: format!("http://wiki/pages/{}", p.id),
            version: p.version,
        }
    }

    fn add(&mut self, id: i64, parent: i64, title: &str) {
        self.pages.push(Stored { id, parent, title: title.to_string(), content: String::new(), version: 1 });
    }

    fn get(&mut self, id: i64) -> Result<Page, Error> {
        self.calls.push(format!("get {}", id));
        match self.pages.iter().find(|p| p.id == id) {
            Some(p) => Ok(self.page(p)),
            None => Err(Error::Confluence(format!("no page {}", id))),
        }
    }

    fn children(&mut self, parent: i64) -> Result<Vec<PageSummary>, Error> {
        self.calls.push(format!("children {}", parent));
        if self.listing_down {
            return Err(Error::Confluence("listing failed".to_string()));
        }
        Ok(self
            .pages
            .iter()
            .filter(|p| p.parent == parent)
            .map(|p| PageSummary {
                id: p.id,
                space: "DOC".to_string(),
                title: p.title.clone(),
                url: format!("http://wiki/pages/{}", p.id),
            })
            .collect())
    }

    fn store(&mut self, update: UpdatePage) -> Result<Page, Error> {
        match update.id {
            None => {
                self.calls.push(format!("create '{}' under {}", update.title, update.parent_id.unwrap()));
                assert_eq!(update.version, None);
                assert_eq!(update.content, "");
                self.next_id += 1;
                let stored = Stored {
                    id: 100 + self.next_id,
                    parent: update.parent_id.unwrap(),
                    title: update.title,
                    content: update.content,
                    version: 1,
                };
                self.pages.push(stored.clone());
                Ok(self.page(&stored))
            }
            Some(id) => {
                self.calls.push(format!("update {} '{}' v{}", id, update.title, update.version.unwrap()));
                if self.refuse_title.as_deref() == Some(update.title.as_str()) {
                    return Err(Error::Confluence("refused".to_string()));
                }
                let at = self.pages.iter().position(|p| p.id == id).unwrap();
                if Some(self.pages[at].version) != update.version {
                    return Err(Error::Confluence("stale version".to_string()));
                }
                self.pages[at].version += 1;
                self.pages[at].content = update.content;
                self.pages[at].title = update.title;
                self.pages[at].parent = update.parent_id.unwrap();
                let stored = self.pages[at].clone();
                Ok(self.page(&stored))
            }
        }
    }

    fn upload(&mut self, request: UploadRequest) -> Result<Option<String>, Error> {
        self.calls.push(format!("upload {} to {}", request.attachment.file_name, request.page_id));
        if request.attachment.file_name.starts_with("missing") {
            Err(Error::Confluence("no such file".to_string()))
        } else {
            Ok(Some(format!("http://wiki/download/{}/{}", request.page_id, request.attachment.file_name)))
        }
    }

    fn remove(&mut self, id: i64) {
        self.calls.push(format!("remove {}", id));
        self.pages.retain(|p| p.id != id);
    }

    fn titled(&self, title: &str) -> Stored {
        self.pages.iter().find(|p| p.title == title).unwrap().clone()
    }
}

fn renderer(version: &str) -> InternalRenderer {
    InternalRenderer {
        server_version: ServerVersion::parse(version).unwrap(),
        config: ConfluenceConfig { enabled: true, root_page: 42, ..ConfluenceConfig::default() },
    }
}

fn chapter(name: &str, content: &str, sub_items: Vec<BookItem>) -> BookItem {
    BookItem::Chapter(Chapter {
        name: name.to_string(),
        content: content.to_string(),
        path: PathBuf::from(format!("{}/index.md", name.to_lowercase())),
        sub_items,
    })
}

fn sync_group(
    r: &InternalRenderer,
    remote: &mut Remote,
    items: &Vec<BookItem>,
    parent: ParentPage,
    lines: &mut Vec<String>,
) -> Result<(), Error> {
    let listed = remote.children(parent.id);
    let plan = r.render_group(items, listed)?;
    for job in &plan.jobs {
        if let BookItem::Chapter(c) = &items[job.item] {
            match render_page(r, remote, c, &parent, job.existing_page_id, lines) {
                Ok(line) => lines.push(line),
                Err(e) => lines.push(e.message()),
            }
        }
    }
    for orphan in plan.orphans {
        remote.remove(orphan.id);
    }
    Ok(())
}

fn render_page(
    r: &InternalRenderer,
    remote: &mut Remote,
    chapter: &Chapter,
    parent: &ParentPage,
    existing_page_id: Option<i64>,
    lines: &mut Vec<String>,
) -> Result<String, Error> {
    let root = PathBuf::from("/book/src");
    let task = r.render_page(chapter, parent, existing_page_id, &root);
    let answer = match task.request() {
        StubRequest::Create(update) => remote.store(update),
        StubRequest::Fetch(id) => remote.get(id),
    };
    let mut step = task.stub(answer);
    let (update, store) = loop {
        match step {
            PageStep::Upload(request, content) => step = content.uploaded(remote.upload(request)),
            PageStep::Store(update, store) => {
                for cluster in store.replaced_clusters() {
                    lines.push(format!("Removed unsupported char: {}", cluster));
                }
                break (update, store);
            }
            PageStep::Failed(e) => return Err(e),
        }
    };
    let (below, children) = store.stored(remote.store(update))?;
    let rendered = sync_group(r, remote, &chapter.sub_items, below, lines);
    children.rendered(rendered)
}

fn root() -> ParentPage {
    ParentPage { id: 42, space: "DOC".to_string() }
}

#[test]
fn two_new_chapters_are_created_under_the_root() {
    let mut remote = Remote::default();
    let mut lines = vec![];
    let book = vec![chapter("Intro", "hello", vec![]), chapter("Guide", "world", vec![])];
    sync_group(&renderer("7.3.0"), &mut remote, &book, root(), &mut lines).unwrap();
    assert_eq!(
        remote.calls,
        vec![
            "children 42",
            "create 'Intro' under 42",
            "update 101 'Intro' v1",
            "children 101",
            "create 'Guide' under 42",
            "update 102 'Guide' v1",
            "children 102",
        ]
    );
    assert_eq!(
        lines,
        vec!["Created 'Intro' http://wiki/pages/101", "Created 'Guide' http://wiki/pages/102"]
    );
    assert_eq!(remote.pages.len(), 2);
}

#[test]
fn matched_chapter_is_updated_and_the_other_child_deleted() {
    let mut remote = Remote::default();
    remote.add(7, 42, "Intro");
    remote.add(9, 42, "Old");
    let mut lines = vec![];
    sync_group(&renderer("7.3.0"), &mut remote, &vec![chapter("Intro", "hello", vec![])], root(), &mut lines).unwrap();
    assert_eq!(
        remote.calls,
        vec!["children 42", "get 7", "update 7 'Intro' v1", "children 7", "remove 9"]
    );
    assert_eq!(lines, vec!["Updated 'Intro' http://wiki/pages/7"]);
    assert_eq!(remote.pages.len(), 1);
    assert_eq!(remote.titled("Intro").version, 2);
}

#[test]
fn every_chapter_of_a_tree_gets_one_page_below_its_parents_page() {
    let mut remote = Remote::default();
    let mut lines = vec![];
    let book = vec![
        chapter("A", "a", vec![chapter("A1", "a1", vec![chapter("A1x", "deep", vec![])]), chapter("A2", "a2", vec![])]),
        BookItem::Separator,
        chapter("B", "b", vec![chapter("B1", "b1", vec![])]),
    ];
    sync_group(&renderer("7.3.0"), &mut remote, &book, root(), &mut lines).unwrap();
    assert_eq!(remote.pages.len(), 6);
    for (title, parent) in [("A", None), ("A1", Some("A")), ("A1x", Some("A1")), ("A2", Some("A")), ("B", None), ("B1", Some("B"))] {
        let page = remote.titled(title);
        let expected = match parent {
            Some(p) => remote.titled(p).id,
            None => 42,
        };
        assert_eq!(page.parent, expected, "{}", title);
        assert_eq!(remote.pages.iter().filter(|p| p.title == title).count(), 1);
    }
    assert_eq!(remote.calls.iter().filter(|c| c.starts_with("create")).count(), 6);
    assert_eq!(remote.calls.iter().filter(|c| c.starts_with("remove")).count(), 0);
    assert!(lines.iter().all(|l| l.starts_with("Created")));
}

#[test]
fn second_run_updates_the_same_pages() {
    let mut remote = Remote::default();
    let mut lines = vec![];
    let book = vec![chapter("A", "a", vec![chapter("A1", "a1", vec![])]), chapter("B", "b", vec![])];
    let r = renderer("7.3.0");
    sync_group(&r, &mut remote, &book, root(), &mut lines).unwrap();
    let first: Vec<(i64, i32)> = ["A", "A1", "B"].iter().map(|t| (remote.titled(t).id, remote.titled(t).version)).collect();
    remote.calls.clear();
    lines.clear();
    sync_group(&r, &mut remote, &book, root(), &mut lines).unwrap();
    let second: Vec<(i64, i32)> = ["A", "A1", "B"].iter().map(|t| (remote.titled(t).id, remote.titled(t).version)).collect();
    assert_eq!(remote.pages.len(), 3);
    for (before, after) in first.iter().zip(second.iter()) {
        assert_eq!(before.0, after.0);
        assert_eq!(before.1 + 1, after.1);
    }
    assert!(remote.calls.iter().all(|c| !c.starts_with("create") && !c.starts_with("remove")));
    assert!(lines.iter().all(|l| l.starts_with("Updated")));
}

#[test]
fn failed_chapter_does_not_stop_its_siblings() {
    let mut remote = Remote::default();
    remote.refuse_title = Some("A".to_string());
    let mut lines = vec![];
    let book = vec![chapter("A", "a", vec![chapter("A1", "a1", vec![])]), chapter("B", "b", vec![])];
    sync_group(&renderer("7.3.0"), &mut remote, &book, root(), &mut lines).unwrap();
    assert_eq!(
        lines,
        vec!["Failed to update Confluence: refused", "Created 'B' http://wiki/pages/102"]
    );
    assert!(remote.pages.iter().all(|p| p.title != "A1"));
    assert!(!remote.calls.contains(&"children 101".to_string()));
}

#[test]
fn failed_listing_below_a_page_fails_that_page() {
    let mut remote = Remote::default();
    remote.listing_down = true;
    let mut lines = vec![];
    let r = renderer("7.3.0");
    let book = vec![chapter("A", "a", vec![])];
    match sync_group(&r, &mut remote, &book, root(), &mut lines) {
        Err(Error::Confluence(e)) => assert_eq!(e, "listing failed"),
        other => panic!("unexpected: {:?}", other),
    }
    remote.listing_down = false;
    let c = match &book[0] {
        BookItem::Chapter(c) => c,
        BookItem::Separator => unreachable!(),
    };
    let task = PageTask { renderer: &r, chapter: c, parent: &root(), existing_page_id: None, root_path: &PathBuf::from("/b") };
    let step = task.stub(Err(Error::Confluence("no stub".to_string())));
    assert!(matches!(step, PageStep::Failed(Error::Confluence(_))));
}

#[test]
fn images_are_uploaded_to_the_chapters_page() {
    let mut remote = Remote::default();
    let mut lines = vec![];
    let book = vec![chapter("Intro", "![x](img/x.png) ![y](missing.png) ![z](https://e.com/z.png)", vec![])];
    sync_group(&renderer("7.3.0"), &mut remote, &book, root(), &mut lines).unwrap();
    assert_eq!(
        remote.calls,
        vec![
            "children 42",
            "create 'Intro' under 42",
            "upload x.png to 101",
            "upload missing.png to 101",
            "update 101 'Intro' v1",
            "children 101",
        ]
    );
    let content = remote.titled("Intro").content;
    assert!(content.contains("<![CDATA[![x](http://wiki/download/101/x.png) ![y](missing.png) ![z](https://e.com/z.png)]]>"));
}

#[test]
fn old_servers_get_downgraded_text() {
    let mut remote = Remote::default();
    let mut lines = vec![];
    let book = vec![chapter("Intro", "smile \u{1F600}", vec![])];
    sync_group(&renderer("7.2.0"), &mut remote, &book, root(), &mut lines).unwrap();
    assert!(remote.titled("Intro").content.contains("<![CDATA[smile \u{2E2E}]]>"));
    assert_eq!(
        lines,
        vec!["Removed unsupported char: \u{1F600}", "Created 'Intro' http://wiki/pages/101"]
    );
    lines.clear();
    let mut newer = Remote::default();
    sync_group(&renderer("7.3.0"), &mut newer, &book, root(), &mut lines).unwrap();
    assert!(newer.titled("Intro").content.contains("<![CDATA[smile \u{1F600}]]>"));
    assert_eq!(lines, vec!["Created 'Intro' http://wiki/pages/101"]);
}

#[test]
fn nested_images_are_both_uploaded() {
    let mut remote = Remote::default();
    let mut lines = vec![];
    let book = vec![chapter("Intro", "![a ![b](y.png)](x.png)", vec![])];
    sync_group(&renderer("7.3.0"), &mut remote, &book, root(), &mut lines).unwrap();
    assert_eq!(
        remote.calls,
        vec![
            "children 42",
            "create 'Intro' under 42",
            "upload x.png to 101",
            "upload y.png to 101",
            "update 101 'Intro' v1",
            "children 101",
        ]
    );
    let content = remote.titled("Intro").content;
    assert!(content.contains(
        "![a ![b](http://wiki/download/101/y.png)](http://wiki/download/101/x.png)"
    ));
}
