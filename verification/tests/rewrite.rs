use mdbook_confluence::markup::{parse_markdown, serialize_markdown, MarkupEvent};
use mdbook_confluence::rewrite::{ContentRewriter, RewriteStep};
use std::path::PathBuf;

fn rewrite(markdown: &str, outcomes: Vec<Option<&str>>) -> (String, Vec<String>) {
    let mut rewriter = ContentRewriter::new(parse_markdown(markdown), PathBuf::from("/book/src/ch"), 11);
    let mut asked = vec![];
    let mut outcomes = outcomes.into_iter();
    loop {
        match rewriter.next_upload() {
            RewriteStep::Upload(request) => {
                assert_eq!(request.page_id, 11);
                asked.push(request.path.to_string_lossy().into_owned());
                rewriter.resolve(outcomes.next().expect("an outcome").map(|u| u.to_string()));
            }
            RewriteStep::Done => break,
        }
    }
    assert!(outcomes.next().is_none());
    (serialize_markdown(rewriter.into_events()).unwrap(), asked)
}

#[test]
fn text_without_images_is_unchanged() {
    let (text, asked) = rewrite("# Title\n\nJust *text*.", vec![]);
    assert_eq!(text, "# Title\n\nJust *text*.");
    assert!(asked.is_empty());
}

#[test]
fn uploaded_image_gets_the_new_address() {
    let (text, asked) = rewrite("![logo](img/logo.png \"Logo\")", vec![Some("http://wiki/download/logo.png")]);
    assert_eq!(text, "![logo](http://wiki/download/logo.png \"Logo\")");
    assert_eq!(asked, vec!["/book/src/ch/img/logo.png"]);
}

#[test]
fn failed_upload_leaves_the_image() {
    let (text, asked) = rewrite("![logo](img/logo.png)", vec![None]);
    assert_eq!(text, "![logo](img/logo.png)");
    assert_eq!(asked, vec!["/book/src/ch/img/logo.png"]);
}

#[test]
fn image_with_a_scheme_is_not_uploaded() {
    let (text, asked) = rewrite("![logo](https://example.com/logo.png)", vec![]);
    assert_eq!(text, "![logo](https://example.com/logo.png)");
    assert!(asked.is_empty());
}

#[test]
fn every_image_is_asked_for_in_order() {
    let (text, asked) = rewrite(
        "![a](a.png) and ![b](http://x/b.png) and ![c](c.png)",
        vec![Some("http://wiki/a"), None],
    );
    assert_eq!(text, "![a](http://wiki/a) and ![b](http://x/b.png) and ![c](c.png)");
    assert_eq!(asked, vec!["/book/src/ch/a.png", "/book/src/ch/c.png"]);
}

#[test]
fn upload_request_carries_title_and_type() {
    let mut rewriter = ContentRewriter::new(parse_markdown("![a](pics/a.jpg \"A picture\")"), PathBuf::from("/b"), 5);
    match rewriter.next_upload() {
        RewriteStep::Upload(request) => {
            assert_eq!(request.attachment.title, "A picture");
            assert_eq!(request.attachment.file_name, "a.jpg");
            assert_eq!(request.attachment.content_type, "image/jpeg");
            assert_eq!(request.attachment.comment, None);
        }
        RewriteStep::Done => panic!("an upload was expected"),
    }
}

#[test]
fn asking_again_repeats_the_request() {
    let mut rewriter = ContentRewriter::new(parse_markdown("![a](a.png)"), PathBuf::from("/b"), 5);
    let first = match rewriter.next_upload() {
        RewriteStep::Upload(r) => r.path,
        RewriteStep::Done => panic!("an upload was expected"),
    };
    let second = match rewriter.next_upload() {
        RewriteStep::Upload(r) => r.path,
        RewriteStep::Done => panic!("an upload was expected"),
    };
    assert_eq!(first, second);
}

#[test]
fn resolve_without_a_request_changes_nothing() {
    let mut rewriter = ContentRewriter::new(parse_markdown("plain"), PathBuf::from("/b"), 5);
    rewriter.resolve(Some("http://wiki/x".to_string()));
    assert!(matches!(rewriter.next_upload(), RewriteStep::Done));
    assert_eq!(serialize_markdown(rewriter.into_events()).unwrap(), "plain");
}

#[test]
fn rewritten_start_carries_the_new_address_and_the_rest_is_kept() {
    let mut rewriter = ContentRewriter::new(parse_markdown("![a](a.png \"T\")"), PathBuf::from("/b"), 5);
    assert!(matches!(rewriter.next_upload(), RewriteStep::Upload(_)));
    rewriter.resolve(Some("http://wiki/a.png".to_string()));
    assert!(matches!(rewriter.next_upload(), RewriteStep::Done));
    let events = rewriter.into_events();
    let tags: Vec<(String, String)> = events
        .iter()
        .filter_map(|e| match e {
            MarkupEvent::ImageStart(t) => Some((t.url.clone(), t.title.clone())),
            _ => None,
        })
        .collect();
    assert_eq!(tags, vec![("http://wiki/a.png".to_string(), "T".to_string())]);
    assert_eq!(events.len(), parse_markdown("![a](a.png \"T\")").len());
}

#[test]
fn image_inside_a_rewritten_image_is_uploaded_too() {
    let (text, asked) = rewrite(
        "![a ![b](y.png)](x.png)",
        vec![Some("http://r/x.png"), Some("http://r/y.png")],
    );
    assert_eq!(asked, vec!["/book/src/ch/x.png", "/book/src/ch/y.png"]);
    assert_eq!(text, "![a ![b](http://r/y.png)](http://r/x.png)");
}

#[test]
fn images_after_a_rewritten_image_are_uploaded() {
    let (text, asked) = rewrite(
        "![outer ![inner](in.png)](out.png) ![next](n.png)",
        vec![Some("http://wiki/out"), Some("http://wiki/in"), Some("http://wiki/n")],
    );
    assert_eq!(asked, vec!["/book/src/ch/out.png", "/book/src/ch/in.png", "/book/src/ch/n.png"]);
    assert_eq!(text, "![outer ![inner](http://wiki/in)](http://wiki/out) ![next](http://wiki/n)");
}

#[test]
fn image_inside_a_failed_image_is_asked_for() {
    let (text, asked) = rewrite("![outer ![inner](in.png)](out.png)", vec![None, Some("http://wiki/in")]);
    assert_eq!(asked, vec!["/book/src/ch/out.png", "/book/src/ch/in.png"]);
    assert_eq!(text, "![outer ![inner](http://wiki/in)](out.png)");
}
