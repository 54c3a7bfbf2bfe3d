//! The rewriting of a chapter's images: each is uploaded, and where the
//! upload gives an address the image points there.

use crate::markup::{ImageTag, MarkupEvent};
use crate::upload::{has_scheme, is_scheme_link, request_for, upload_request, UploadRequest};
use std::path::PathBuf;
use vstd::prelude::*;

verus! {

/// Where the rewriting of a chapter's events stands.
pub struct RewriteState<'a> {
    /// The events not yet read, in order.
    pub remaining: Seq<MarkupEvent<'a>>,
    /// The events written so far, in order.
    pub written: Seq<MarkupEvent<'a>>,
    /// The image whose upload is awaited. Its start is not written yet.
    pub awaiting: Option<ImageTag>,
}

/// The state before anything of `events` is read.
pub open spec fn unread<'a>(events: Seq<MarkupEvent<'a>>) -> RewriteState<'a> {
    RewriteState { remaining: events, written: Seq::empty(), awaiting: None }
}

/// `tag` with the address `url`.
pub open spec fn moved_to(tag: ImageTag, url: String) -> ImageTag {
    ImageTag { link_type: tag.link_type, url, title: tag.title, id: tag.id }
}

/// Reads on until an image needs an upload or no event is left.
///
/// The start of an image whose address has no scheme stops the reading, for
/// its upload, wherever the image stands. Every other event is written as it
/// is.
pub open spec fn advance<'a>(state: RewriteState<'a>) -> RewriteState<'a>
    decreases state.remaining.len(),
{
    if state.awaiting is Some || state.remaining.len() == 0 {
        state
    } else {
        let event = state.remaining[0];
        let rest = state.remaining.skip(1);
        match event {
            MarkupEvent::ImageStart(tag) if !has_scheme(tag.url@) => RewriteState {
                remaining: rest,
                written: state.written,
                awaiting: Some(tag),
            },
            _ => advance(
                RewriteState { remaining: rest, written: state.written.push(event), awaiting: None },
            ),
        }
    }
}

/// Takes the outcome of the awaited upload. With an address the image's start
/// is written with that address; without one the start is written as it was.
/// Where no upload is awaited nothing changes.
pub open spec fn resolved<'a>(state: RewriteState<'a>, outcome: Option<String>) -> RewriteState<
    'a,
> {
    match state.awaiting {
        None => state,
        Some(tag) => RewriteState {
            remaining: state.remaining,
            written: state.written.push(
                MarkupEvent::ImageStart(
                    match outcome {
                        Some(url) => moved_to(tag, url),
                        None => tag,
                    },
                ),
            ),
            awaiting: None,
        },
    }
}

/// The events that are read and not yet written: the start of the image whose
/// upload is awaited, then the events not yet read.
pub open spec fn unwritten<'a>(state: RewriteState<'a>) -> Seq<MarkupEvent<'a>> {
    match state.awaiting {
        Some(tag) => seq![MarkupEvent::ImageStart(tag)] + state.remaining,
        None => state.remaining,
    }
}

/// All events of the chapter as they stand: those written, then those still
/// to write.
pub open spec fn all_events<'a>(state: RewriteState<'a>) -> Seq<MarkupEvent<'a>> {
    state.written + unwritten(state)
}

/// Reading on stops only for an upload or at the end of the events.
pub proof fn lemma_advance_settles<'a>(state: RewriteState<'a>)
    ensures
        advance(state).awaiting is Some || advance(state).remaining.len() == 0,
    decreases state.remaining.len(),
{
    if state.awaiting is None && state.remaining.len() > 0 {
        lemma_advance_settles(
            RewriteState {
                remaining: state.remaining.skip(1),
                written: state.written.push(state.remaining[0]),
                awaiting: None,
            },
        );
    }
}

/// Reading on changes no event, drops none and adds none.
pub proof fn lemma_advance_changes_nothing<'a>(state: RewriteState<'a>)
    ensures
        all_events(advance(state)) == all_events(state),
    decreases state.remaining.len(),
{
    if state.awaiting is None && state.remaining.len() > 0 {
        let event = state.remaining[0];
        let rest = state.remaining.skip(1);
        assert(state.written + state.remaining =~= state.written.push(event) + rest);
        assert(state.written + (seq![event] + rest) =~= state.written + state.remaining);
        lemma_advance_changes_nothing(
            RewriteState { remaining: rest, written: state.written.push(event), awaiting: None },
        );
    }
}

/// The reading stops at every image without a scheme: where it has run to the
/// end, all that was left to read was written as it is, and no image among it
/// was one to upload.
pub proof fn lemma_advance_skips_no_image<'a>(state: RewriteState<'a>, i: int)
    requires
        state.awaiting is None,
        advance(state).awaiting is None,
        0 <= i < state.remaining.len(),
    ensures
        advance(state).written == state.written + state.remaining,
        state.remaining[i] matches MarkupEvent::ImageStart(tag) ==> has_scheme(tag.url@),
    decreases state.remaining.len(),
{
    let event = state.remaining[0];
    let rest = state.remaining.skip(1);
    let next = RewriteState { remaining: rest, written: state.written.push(event), awaiting: None };
    assert(state.written + state.remaining =~= next.written + rest);
    if rest.len() > 0 {
        if i > 0 {
            assert(rest[i - 1] == state.remaining[i]);
            lemma_advance_skips_no_image(next, i - 1);
        } else {
            lemma_advance_skips_no_image(next, 0);
        }
    } else {
        assert(next.written + rest =~= next.written);
    }
}

/// An upload that gives no address changes no event: a chapter whose uploads
/// all fail is written as it was read.
pub proof fn lemma_failed_upload_changes_nothing<'a>(state: RewriteState<'a>)
    ensures
        all_events(resolved(state, None)) == all_events(state),
{
    match state.awaiting {
        Some(tag) => {
            assert(state.written.push(MarkupEvent::ImageStart(tag)) + state.remaining
                =~= state.written + (seq![MarkupEvent::ImageStart(tag)] + state.remaining));
        },
        None => {},
    }
}

/// An upload that gives an address changes one event and no other: the start
/// of the image that was waited for, which now has that address.
pub proof fn lemma_upload_moves_one_image<'a>(state: RewriteState<'a>, url: String)
    requires
        state.awaiting is Some,
    ensures
        all_events(resolved(state, Some(url))) == all_events(state).update(
            state.written.len() as int,
            MarkupEvent::ImageStart(moved_to(state.awaiting->0, url)),
        ),
{
    let tag = state.awaiting->0;
    assert(state.written.push(MarkupEvent::ImageStart(moved_to(tag, url))) + state.remaining =~= (
    state.written + (seq![MarkupEvent::ImageStart(tag)] + state.remaining)).update(
        state.written.len() as int,
        MarkupEvent::ImageStart(moved_to(tag, url)),
    ));
}

/// What the rewriting asks for next.
#[derive(Debug)]
pub enum RewriteStep {
    /// An image is to be uploaded; `resolve` takes the outcome.
    Upload(UploadRequest),
    /// Every event is written.
    Done,
}

/// Rewrites the events of one chapter, image by image, for the page
/// `page_id`. The images lie relative to `dir`.
pub struct ContentRewriter<'a> {
    page_id: i64,
    dir: PathBuf,
    /// The events not yet read, the next one last.
    pending: Vec<MarkupEvent<'a>>,
    written: Vec<MarkupEvent<'a>>,
    awaiting: Option<ImageTag>,
}

impl<'a> ContentRewriter<'a> {
    /// Where the rewriting stands.
    pub closed spec fn state(self) -> RewriteState<'a> {
        RewriteState {
            remaining: self.pending@.reverse(),
            written: self.written@,
            awaiting: self.awaiting,
        }
    }

    /// The page that the images are uploaded to.
    pub closed spec fn page_id(self) -> i64 {
        self.page_id
    }

    /// The directory of the chapter.
    pub closed spec fn dir(self) -> PathBuf {
        self.dir
    }

    /// A rewriter that has read nothing of `events` yet.
    pub fn new(events: Vec<MarkupEvent<'a>>, dir: PathBuf, page_id: i64) -> (rewriter: Self)
        ensures
            rewriter.state() == unread(events@),
            rewriter.page_id() == page_id,
            rewriter.dir() == dir,
    {
        let mut events = events;
        let mut pending: Vec<MarkupEvent<'a>> = Vec::new();
        let ghost all = events@;
        while events.len() > 0
            invariant
                pending@ + events@.reverse() == all.reverse(),
            decreases events.len(),
        {
            let ghost before = events@;
            let event = events.pop().unwrap();
            pending.push(event);
            assert(before.reverse() =~= seq![event] + events@.reverse());
            assert(pending@ + events@.reverse() =~= all.reverse());
        }
        assert(events@.reverse() =~= Seq::<MarkupEvent<'a>>::empty());
        assert(pending@ =~= all.reverse());
        assert(all.reverse().reverse() =~= all);
        ContentRewriter {
            page_id,
            dir,
            pending,
            written: Vec::new(),
            awaiting: None,
        }
    }

    /// Reads on, as `advance` says, and tells what is needed next.
    pub fn next_upload(&mut self) -> (step: RewriteStep)
        ensures
            final(self).state() == advance(old(self).state()),
            final(self).page_id() == old(self).page_id(),
            final(self).dir() == old(self).dir(),
            match step {
                RewriteStep::Upload(request) => {
                    &&& final(self).state().awaiting matches Some(tag)
                    &&& request@ == request_for(
                        tag.title@,
                        tag.url@,
                        old(self).dir(),
                        old(self).page_id(),
                    )
                },
                RewriteStep::Done => {
                    &&& final(self).state().awaiting is None
                    &&& final(self).state().remaining.len() == 0
                },
            },
    {
        while self.awaiting.is_none() && self.pending.len() > 0
            invariant
                advance(self.state()) == advance(old(self).state()),
                self.page_id == old(self).page_id,
                self.dir == old(self).dir,
            decreases self.pending.len(),
        {
            let ghost before = self.state();
            let event = self.pending.pop().unwrap();
            assert(before.remaining[0] == event);
            assert(self.pending@.reverse() =~= before.remaining.skip(1));
            match event {
                MarkupEvent::ImageStart(tag) => {
                    if !is_scheme_link(tag.url.as_str()) {
                        self.awaiting = Some(tag);
                    } else {
                        self.written.push(MarkupEvent::ImageStart(tag));
                    }
                },
                MarkupEvent::Other(other) => {
                    self.written.push(MarkupEvent::Other(other));
                },
            }
            assert(advance(self.state()) == advance(before));
        }
        match &self.awaiting {
            Some(tag) => RewriteStep::Upload(
                upload_request(tag.title.as_str(), tag.url.as_str(), &self.dir, self.page_id),
            ),
            None => RewriteStep::Done,
        }
    }

    /// Takes the outcome of the upload that was asked for, as `resolved` says.
    pub fn resolve(&mut self, outcome: Option<String>)
        ensures
            final(self).state() == resolved(old(self).state(), outcome),
            final(self).page_id() == old(self).page_id(),
            final(self).dir() == old(self).dir(),
    {
        match self.awaiting.take() {
            None => {},
            Some(tag) => match outcome {
                Some(url) => {
                    let ImageTag { link_type, url: _, title, id } = tag;
                    self.written.push(
                        MarkupEvent::ImageStart(ImageTag { link_type, url, title, id }),
                    );
                },
                None => {
                    self.written.push(MarkupEvent::ImageStart(tag));
                },
            },
        }
    }

    /// The events written so far.
    pub fn into_events(self) -> (events: Vec<MarkupEvent<'a>>)
        ensures
            events@ == self.state().written,
    {
        self.written
    }
}

} // verus!
