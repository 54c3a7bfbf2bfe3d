//! Markdown as a list of events: parsed by the book tool's parser, written
//! back by the serialiser.

use pulldown_cmark::{Event, LinkType, Tag};
use vstd::prelude::*;

verus! {

/// One event of a parsed markdown text. Nothing in the library looks inside
/// one.
#[verifier::external_type_specification]
#[verifier::external_body]
pub struct ExEvent<'a>(Event<'a>);

/// How a link or an image was written in the markdown text.
#[verifier::external_type_specification]
#[verifier::external_body]
pub struct ExLinkType(LinkType);

/// What the parser knows of an image: how it was written, where it points,
/// its title, and the name of its reference where it was written with one.
#[derive(Debug)]
pub struct ImageTag {
    pub link_type: LinkType,
    pub url: String,
    pub title: String,
    pub id: String,
}

/// An event of a markdown text, told apart as far as the rewriting of images
/// goes.
#[derive(Debug)]
pub enum MarkupEvent<'a> {
    /// An image begins. The serialiser takes the image's address from here.
    ImageStart(ImageTag),
    /// Any other event, carried through as it is.
    Other(Event<'a>),
}

/// The events that the book tool's parser reads from `content`.
pub uninterp spec fn markdown_events(content: Seq<char>, smart_punctuation: bool) -> Seq<
    MarkupEvent<'static>,
>;

/// `mdbook::utils::new_cmark_parser`, run to its end. The start of an image
/// comes as `ImageStart`, with the fields of its tag; every other event comes
/// as it is.
#[verifier::external_body]
fn cmark_parse(content: &str, smart_punctuation: bool) -> (events: Vec<MarkupEvent<'_>>)
    ensures
        events@ == markdown_events(content@, smart_punctuation),
{
    let parser = mdbook::utils::new_cmark_parser(content, smart_punctuation);
    parser.map(|event| match event {
        Event::Start(Tag::Image { link_type, dest_url, title, id }) => {
            let (url, title, id) = (dest_url.to_string(), title.to_string(), id.to_string());
            MarkupEvent::ImageStart(ImageTag { link_type, url, title, id })
        },
        other => MarkupEvent::Other(other),
    }).collect()
}

/// Whether two events are the same but for the tag of an image that begins.
pub open spec fn alike(a: MarkupEvent, b: MarkupEvent) -> bool {
    a == b || (a is ImageStart && b is ImageStart)
}

/// Whether the events are, one by one, alike to those of `other`.
pub open spec fn all_alike(events: Seq<MarkupEvent>, other: Seq<MarkupEvent>) -> bool {
    &&& events.len() == other.len()
    &&& forall|i: int| 0 <= i < events.len() ==> alike(#[trigger] events[i], other[i])
}

/// Whether the events are those of some parsed text, but for the tags of its
/// images. In such events whatever ends was begun before.
pub open spec fn from_parser(events: Seq<MarkupEvent>) -> bool {
    exists|content: Seq<char>, smart_punctuation: bool|
        all_alike(events, #[trigger] markdown_events(content, smart_punctuation))
}

/// The markdown text that the serialiser writes for `events`, or its error.
pub uninterp spec fn markdown_text(events: Seq<MarkupEvent<'static>>) -> Result<
    Seq<char>,
    Seq<char>,
>;

/// `pulldown_cmark_to_cmark::cmark` into a new string. The starts of images
/// go back into the parser's form, with the fields they hold now. The
/// serialiser takes for granted that whatever ends was begun, as it is in the
/// events of a parsed text.
#[verifier::external_body]
fn cmark_write(events: Vec<MarkupEvent<'_>>) -> (text: Result<String, String>)
    requires
        from_parser(events@),
    ensures
        match text {
            Ok(t) => markdown_text(events@) == Ok::<Seq<char>, Seq<char>>(t@),
            Err(e) => markdown_text(events@) == Err::<Seq<char>, Seq<char>>(e@),
        },
{
    let mut buf = String::new();
    let parsed = events.into_iter().map(|event| match event {
        MarkupEvent::ImageStart(ImageTag { link_type, url, title, id }) => {
            let (dest_url, title, id) = (url.into(), title.into(), id.into());
            Event::Start(Tag::Image { link_type, dest_url, title, id })
        },
        MarkupEvent::Other(other) => other,
    });
    match pulldown_cmark_to_cmark::cmark(parsed, &mut buf) {
        Ok(_) => Ok(buf),
        Err(e) => Err(e.to_string()),
    }
}

/// The events of `content`, with its punctuation as it is written.
pub fn parse_markdown(content: &str) -> (events: Vec<MarkupEvent<'_>>)
    ensures
        events@ == markdown_events(content@, false),
        from_parser(events@),
{
    let events = cmark_parse(content, false);
    proof {
        lemma_parsed_is_from_parser(content@, false);
    }
    events
}

/// The events of a parsed text are from the parser.
pub proof fn lemma_parsed_is_from_parser(content: Seq<char>, smart_punctuation: bool)
    ensures
        from_parser(markdown_events(content, smart_punctuation)),
{
    let events = markdown_events(content, smart_punctuation);
    assert(all_alike(events, markdown_events(content, smart_punctuation)));
}

/// The markdown text of `events`, or the serialiser's error.
pub fn serialize_markdown(events: Vec<MarkupEvent<'_>>) -> (text: Result<String, String>)
    requires
        from_parser(events@),
    ensures
        match text {
            Ok(t) => markdown_text(events@) == Ok::<Seq<char>, Seq<char>>(t@),
            Err(e) => markdown_text(events@) == Err::<Seq<char>, Seq<char>>(e@),
        },
{
    cmark_write(events)
}

} // verus!
