use mdbook_confluence::markup::{parse_markdown, serialize_markdown, MarkupEvent};

#[test]
fn parse_tells_images_apart() {
    let events = parse_markdown("text ![alt](img/a.png \"T\") more");
    let starts: Vec<(&str, &str)> = events
        .iter()
        .filter_map(|e| match e {
            MarkupEvent::ImageStart(tag) => Some((tag.url.as_str(), tag.title.as_str())),
            _ => None,
        })
        .collect();
    assert_eq!(starts, vec![("img/a.png", "T")]);
    let others = events.iter().filter(|e| matches!(e, MarkupEvent::Other(_))).count();
    assert_eq!(others + 1, events.len());
    assert!(events.len() > 2);
}

#[test]
fn serialize_gives_the_markdown_back() {
    let text = serialize_markdown(parse_markdown("# Title\n\nSome *text* and ![alt](a.png)."));
    assert_eq!(text, Ok("# Title\n\nSome *text* and ![alt](a.png).".to_string()));
}

#[test]
fn serialize_takes_the_address_from_the_start_event() {
    let mut events = parse_markdown("![alt](a.png)");
    for event in events.iter_mut() {
        if let MarkupEvent::ImageStart(tag) = event {
            tag.url = "http://wiki/a.png".to_string();
        }
    }
    assert_eq!(serialize_markdown(events), Ok("![alt](http://wiki/a.png)".to_string()));
}

#[test]
fn parse_keeps_plain_punctuation() {
    let text = serialize_markdown(parse_markdown("\"quoted\" -- text..."));
    assert_eq!(text, Ok("\"quoted\" -- text...".to_string()));
}

#[test]
fn reference_images_keep_their_name() {
    let events = parse_markdown("![alt][logo]\n\n[logo]: img/logo.png \"Logo\"");
    let tags: Vec<(&str, &str, &str)> = events
        .iter()
        .filter_map(|e| match e {
            MarkupEvent::ImageStart(t) => Some((t.url.as_str(), t.title.as_str(), t.id.as_str())),
            _ => None,
        })
        .collect();
    assert_eq!(tags, vec![("img/logo.png", "Logo", "logo")]);
}

#[test]
fn parse_reads_tables_and_strikethrough() {
    let text = serialize_markdown(parse_markdown("~~gone~~"));
    assert_eq!(text, Ok("~~gone~~".to_string()));
}
