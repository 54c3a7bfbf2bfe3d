use mdbook_confluence::cdata::escape_to_cdata;
use mdbook_confluence::content::{
    downgrade, downgrade_text, replaced_clusters, to_cdata, to_page_content, wide_clusters,
};

#[test]
fn cdata_wraps_plain_text() {
    assert_eq!(escape_to_cdata("hello"), "<![CDATA[hello]]>");
    assert_eq!(escape_to_cdata(""), "<![CDATA[]]>");
}

#[test]
fn cdata_splits_every_end_marker() {
    assert_eq!(escape_to_cdata("a]]>b"), "<![CDATA[a]]]]><![CDATA[>b]]>");
    assert_eq!(
        escape_to_cdata("]]>]]>"),
        "<![CDATA[]]]]><![CDATA[>]]]]><![CDATA[>]]>"
    );
    assert_eq!(escape_to_cdata("]]]>"), "<![CDATA[]]]]]><![CDATA[>]]>");
    assert_eq!(escape_to_cdata("a]]"), "<![CDATA[a]]]]>");
}

#[test]
fn cdata_matches_split_and_join() {
    for body in ["", "]", "]]", "]]>", "x]]>]]>y", "]]]]>>", "]>]]>", "a]]>b]]>c]]"] {
        let joined = body.split("]]>").collect::<Vec<&str>>().join("]]]]><![CDATA[>");
        assert_eq!(escape_to_cdata(body), format!("<![CDATA[{}]]>", joined));
    }
}

#[test]
fn downgrade_replaces_wide_clusters() {
    assert_eq!(downgrade_text("a\u{1F600}b"), "a\u{2E2E}b");
    assert_eq!(downgrade_text("e\u{301}"), "e\u{301}");
    assert_eq!(downgrade_text("o\u{308}\u{332}"), "\u{2E2E}");
    assert_eq!(downgrade_text("\u{1F1F7}\u{1F1FA}!"), "\u{2E2E}!");
    assert_eq!(downgrade_text("plain"), "plain");
    assert_eq!(downgrade_text("\u{20AC}"), "\u{20AC}");
}

#[test]
fn to_cdata_follows_the_gate() {
    assert_eq!(to_cdata("hi \u{1F600}", true), "<![CDATA[hi \u{1F600}]]>");
    assert_eq!(to_cdata("hi \u{1F600}", false), "<![CDATA[hi \u{2E2E}]]>");
    assert_eq!(to_cdata("\u{1F600}]]>", false), "<![CDATA[\u{2E2E}]]]]><![CDATA[>]]>");
}

#[test]
fn page_content_has_the_macro_around_the_block() {
    let expected = format!(
        r#"<ac:structured-macro ac:name="markdown" ac:schema-version="1" ac:macro-id="249327eb-2c99-42ca-a7a7-487e1c0c7e04">
           <ac:plain-text-body>{}</ac:plain-text-body>
        </ac:structured-macro>"#,
        "<![CDATA[# Title]]>"
    );
    assert_eq!(to_page_content("# Title", true), expected);
}

fn read_sections(text: &str) -> Option<String> {
    let mut rest = text;
    let mut body = String::new();
    while !rest.is_empty() {
        rest = rest.strip_prefix("<![CDATA[")?;
        let end = rest.find("]]>")?;
        body.push_str(&rest[..end]);
        rest = &rest[end + 3..];
    }
    Some(body)
}

#[test]
fn cdata_reads_back_as_the_body() {
    for body in [
        "", "plain", "]]>", "a]]>b", "]]]>", "]]]]>", "]]>]]>", "]]", "]", ">", "]>", "x]]", "]]>>",
        "<![CDATA[inner]]>", "]]]]><![CDATA[>", "a]]>b]]>c", "\u{1F600}]]>\u{2E2E}",
    ] {
        assert_eq!(read_sections(&escape_to_cdata(body)), Some(body.to_string()), "{:?}", body);
    }
}

#[test]
fn cdata_block_reads_back_as_the_text_for_the_server() {
    assert_eq!(read_sections(&to_cdata("a]]>\u{1F600}", true)), Some("a]]>\u{1F600}".to_string()));
    assert_eq!(read_sections(&to_cdata("a]]>\u{1F600}", false)), Some("a]]>\u{2E2E}".to_string()));
}

#[test]
fn downgrade_goes_by_the_bytes_of_each_cluster() {
    let clusters: Vec<String> = ["a", "\u{20AC}", "\u{1F600}", "abcd", "abc", ""].iter().map(|c| c.to_string()).collect();
    assert_eq!(downgrade(&clusters), "a\u{20AC}\u{2E2E}\u{2E2E}abc");
    assert_eq!(downgrade(&vec![]), "");
}

#[test]
fn wide_clusters_are_those_that_are_replaced() {
    let clusters: Vec<String> = ["a", "\u{20AC}", "\u{1F600}", "abcd", "abc", "", "o\u{308}\u{332}"].iter().map(|c| c.to_string()).collect();
    assert_eq!(wide_clusters(&clusters), vec!["\u{1F600}", "abcd", "o\u{308}\u{332}"]);
    assert!(wide_clusters(&vec![]).is_empty());
}

#[test]
fn replaced_clusters_follow_the_support_of_the_service() {
    assert_eq!(replaced_clusters("a\u{1F600}b\u{1F1F7}\u{1F1FA}c", false), vec!["\u{1F600}", "\u{1F1F7}\u{1F1FA}"]);
    assert!(replaced_clusters("a\u{1F600}b", true).is_empty());
    assert!(replaced_clusters("plain e\u{301}", false).is_empty());
}
