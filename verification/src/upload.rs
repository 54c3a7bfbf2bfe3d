//! Uploads: which images are uploaded, and what is asked of the service for
//! one.

use crate::error::Error;
use crate::pages::{AttachmentRequest, AttachmentRequestView};
use std::path::PathBuf;
use vstd::prelude::*;

verus! {

/// Whether `c` may stand in the name of a scheme after its first letter.
pub open spec fn is_scheme_char(c: char) -> bool {
    ||| 'a' <= c <= 'z'
    ||| '0' <= c <= '9'
    ||| c == '+'
    ||| c == '.'
    ||| c == '-'
}

/// Whether `url` starts with the name of a scheme and a colon: a lower-case
/// letter, then any number of lower-case letters, digits, `+`, `.` and `-`,
/// then `:`. Such an address points outside the book.
pub open spec fn has_scheme(url: Seq<char>) -> bool {
    exists|colon: int|
        {
            &&& 1 <= colon < url.len()
            &&& 'a' <= url[0] <= 'z'
            &&& #[trigger] url[colon] == ':'
            &&& forall|i: int| 1 <= i < colon ==> is_scheme_char(#[trigger] url[i])
        }
}

/// The pattern of an address with a scheme.
pub open spec fn scheme_pattern() -> Seq<char> {
    "^[a-z][a-z0-9+.-]*:"@
}

/// `Regex::new` and `Regex::is_match`, for the one pattern of a scheme: the
/// pattern is anchored at the start of the text, so there is a match exactly
/// where the text begins as `has_scheme` says.
#[verifier::external_body]
fn matches_scheme(pattern: &str, url: &str) -> (found: bool)
    requires
        pattern@ == scheme_pattern(),
    ensures
        found == has_scheme(url@),
{
    regex::Regex::new(pattern).unwrap().is_match(url)
}

/// Whether the image at `url` lies outside the book and is left where it is.
pub fn is_scheme_link(url: &str) -> (found: bool)
    ensures
        found == has_scheme(url@),
{
    matches_scheme("^[a-z][a-z0-9+.-]*:", url)
}

/// The path without its last component.
pub uninterp spec fn parent_of(path: PathBuf) -> PathBuf;

/// `PathBuf::pop` on a copy: the path without its last component.
#[verifier::external_body]
fn without_last(path: &PathBuf) -> (parent: PathBuf)
    ensures
        parent == parent_of(*path),
{
    let mut parent = path.clone();
    parent.pop();
    parent
}

/// `rest` below `base`, or `rest` alone where it is absolute.
pub uninterp spec fn joined(base: PathBuf, rest: PathBuf) -> PathBuf;

/// `Path::join`.
#[verifier::external_body]
fn join(base: &PathBuf, rest: &PathBuf) -> (path: PathBuf)
    ensures
        path == joined(*base, *rest),
{
    base.join(rest)
}

/// The path that `text` names.
pub uninterp spec fn path_named(text: Seq<char>) -> PathBuf;

/// `PathBuf::from`.
#[verifier::external_body]
fn path_of(text: &str) -> (path: PathBuf)
    ensures
        path == path_named(text@),
{
    PathBuf::from(text)
}

/// The last component of the path, where it has one that is valid text.
pub uninterp spec fn file_name_of(path: PathBuf) -> Option<Seq<char>>;

/// `Path::file_name`.
#[verifier::external_body]
fn file_name(path: &PathBuf) -> (name: Option<String>)
    ensures
        match name {
            Some(text) => file_name_of(*path) == Some(text@),
            None => file_name_of(*path) is None,
        },
{
    path.file_name().and_then(|name| name.to_str()).map(|name| name.to_string())
}

/// The media type that goes with the path's extension, or that of arbitrary
/// bytes where the extension is unknown or missing.
pub uninterp spec fn content_type_of(path: PathBuf) -> Seq<char>;

/// `MimeGuess::from_path` and `first_or_octet_stream`.
#[verifier::external_body]
fn guess_content_type(path: &PathBuf) -> (media_type: String)
    ensures
        media_type@ == content_type_of(*path),
{
    mime_guess::MimeGuess::from_path(path).first_or_octet_stream().to_string()
}

/// The directory of a chapter's file: `root` joined with the chapter's path
/// less its last component.
pub open spec fn chapter_dir_of(root: PathBuf, chapter_path: PathBuf) -> PathBuf {
    joined(root, parent_of(chapter_path))
}

/// The directory of a chapter's file.
pub fn chapter_dir(root: &PathBuf, chapter_path: &PathBuf) -> (dir: PathBuf)
    ensures
        dir == chapter_dir_of(*root, *chapter_path),
{
    let parent = without_last(chapter_path);
    join(root, &parent)
}

/// A file to attach to a page.
#[derive(Debug)]
pub struct UploadRequest {
    /// The page that gets the attachment.
    pub page_id: i64,
    pub attachment: AttachmentRequest,
    /// The file to read.
    pub path: PathBuf,
}

/// An `UploadRequest` as plain values.
pub struct UploadRequestView {
    pub page_id: i64,
    pub attachment: AttachmentRequestView,
    pub path: PathBuf,
}

impl View for UploadRequest {
    type V = UploadRequestView;

    open spec fn view(&self) -> UploadRequestView {
        UploadRequestView { page_id: self.page_id, attachment: self.attachment@, path: self.path }
    }
}

/// The request that attaches the file at `path` to the page `page_id`, where
/// the path's last component is `name` and its media type is
/// `content_type`: a path without a last component gets an empty file name,
/// and there is no comment.
pub open spec fn request_of(
    title: Seq<char>,
    path: PathBuf,
    name: Option<Seq<char>>,
    content_type: Seq<char>,
    page_id: i64,
) -> UploadRequestView {
    UploadRequestView {
        page_id,
        attachment: AttachmentRequestView {
            file_name: match name {
                Some(name) => name,
                None => Seq::empty(),
            },
            content_type,
            title,
            comment: None,
        },
        path,
    }
}

/// The request for the file at `path`: see `request_of`.
pub fn describe_upload(
    title: &str,
    path: PathBuf,
    name: Option<String>,
    content_type: String,
    page_id: i64,
) -> (request: UploadRequest)
    ensures
        request@ == request_of(
            title@,
            path,
            match name {
                Some(text) => Some(text@),
                None => None,
            },
            content_type@,
            page_id,
        ),
{
    let file_name = match name {
        Some(text) => text,
        None => String::new(),
    };
    UploadRequest {
        page_id,
        attachment: AttachmentRequest {
            file_name,
            content_type,
            title: title.to_owned(),
            comment: None,
        },
        path,
    }
}

/// The request that attaches the image `image_url` of a chapter in `dir` to
/// the page `page_id`: the file lies at `image_url` below `dir`, its name is
/// the last component of that path, and its type goes by its extension.
pub open spec fn request_for(
    title: Seq<char>,
    image_url: Seq<char>,
    dir: PathBuf,
    page_id: i64,
) -> UploadRequestView {
    let path = joined(dir, path_named(image_url));
    request_of(title, path, file_name_of(path), content_type_of(path), page_id)
}

/// The request that attaches an image to a page: see `request_for`.
pub fn upload_request(title: &str, image_url: &str, dir: &PathBuf, page_id: i64) -> (request:
    UploadRequest)
    ensures
        request@ == request_for(title@, image_url@, *dir, page_id),
{
    let path = join(dir, &path_of(image_url));
    let name = file_name(&path);
    let content_type = guess_content_type(&path);
    describe_upload(title, path, name, content_type, page_id)
}

/// The address of an uploaded file, as far as the upload gave one: a failed
/// upload, and one that names no address, leave the image as it was.
pub fn uploaded_url(answer: Result<Option<String>, Error>) -> (url: Option<String>)
    ensures
        url == match answer {
            Ok(Some(address)) => Some(address),
            _ => None,
        },
{
    match answer {
        Ok(Some(address)) => Some(address),
        _ => None,
    }
}

} // verus!
