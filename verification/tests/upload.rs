use mdbook_confluence::error::Error;
use mdbook_confluence::upload::{chapter_dir, describe_upload, is_scheme_link, upload_request, uploaded_url};
use std::path::PathBuf;

#[test]
fn scheme_links_are_recognised() {
    assert!(is_scheme_link("http://example.com/a.png"));
    assert!(is_scheme_link("https://example.com"));
    assert!(is_scheme_link("mailto:someone@example.com"));
    assert!(is_scheme_link("a:"));
    assert!(is_scheme_link("git+ssh://host/repo"));
    assert!(is_scheme_link("x-1.2+3:rest"));
}

#[test]
fn local_paths_are_no_scheme_links() {
    assert!(!is_scheme_link("images/logo.png"));
    assert!(!is_scheme_link("./a:b.png"));
    assert!(!is_scheme_link(""));
    assert!(!is_scheme_link(":"));
    assert!(!is_scheme_link("Http://example.com"));
    assert!(!is_scheme_link("1http://example.com"));
    assert!(!is_scheme_link("hTtp://example.com"));
    assert!(!is_scheme_link(" http://example.com"));
    assert!(!is_scheme_link("images/http://x"));
    assert!(!is_scheme_link("http"));
    assert!(!is_scheme_link("\nhttp://example.com"));
}

#[test]
fn chapter_dir_is_root_with_the_chapters_directory() {
    let dir = chapter_dir(&PathBuf::from("/book/src"), &PathBuf::from("guide/intro.md"));
    assert_eq!(dir, PathBuf::from("/book/src/guide"));
    let top = chapter_dir(&PathBuf::from("/book/src"), &PathBuf::from("intro.md"));
    assert_eq!(top, PathBuf::from("/book/src"));
}

#[test]
fn upload_request_describes_the_file() {
    let request = upload_request("A logo", "img/logo.png", &PathBuf::from("/book/src/guide"), 42);
    assert_eq!(request.page_id, 42);
    assert_eq!(request.path, PathBuf::from("/book/src/guide/img/logo.png"));
    assert_eq!(request.attachment.file_name, "logo.png");
    assert_eq!(request.attachment.content_type, "image/png");
    assert_eq!(request.attachment.title, "A logo");
    assert_eq!(request.attachment.comment, None);
}

#[test]
fn upload_request_falls_back_to_octet_stream() {
    let request = upload_request("", "data/blob", &PathBuf::from("/b"), 1);
    assert_eq!(request.attachment.file_name, "blob");
    assert_eq!(request.attachment.content_type, "application/octet-stream");
    let odd = upload_request("", "..", &PathBuf::from("/b"), 1);
    assert_eq!(odd.attachment.file_name, "");
}

#[test]
fn uploaded_url_keeps_only_a_named_address() {
    assert_eq!(uploaded_url(Ok(Some("http://wiki/a.png".to_string()))), Some("http://wiki/a.png".to_string()));
    assert_eq!(uploaded_url(Ok(None)), None);
    assert_eq!(uploaded_url(Err(Error::Confluence("timeout".to_string()))), None);
}

#[test]
fn upload_without_a_file_name_gets_an_empty_one() {
    let named = describe_upload("T", PathBuf::from("/b/x.png"), Some("x.png".to_string()), "image/png".to_string(), 7);
    assert_eq!(named.page_id, 7);
    assert_eq!(named.path, PathBuf::from("/b/x.png"));
    assert_eq!(named.attachment.file_name, "x.png");
    assert_eq!(named.attachment.content_type, "image/png");
    assert_eq!(named.attachment.title, "T");
    assert_eq!(named.attachment.comment, None);
    let nameless = describe_upload("", PathBuf::from("/"), None, "application/octet-stream".to_string(), 7);
    assert_eq!(nameless.attachment.file_name, "");
}
