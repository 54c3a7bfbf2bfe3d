//! The content of a page: the markdown, downgraded where the service needs
//! it, inside the macro that shows it.

use crate::cdata::{cdata_text, escape_to_cdata, lemma_cdata_round_trip, read_sections};
use crate::text::push_char;
use unicode_segmentation::UnicodeSegmentation;
use vstd::prelude::*;
use vstd::string::StringExecFns;
use vstd::utf8::encode_utf8;

verus! {

/// The extended grapheme clusters of `text`, in order, as Unicode's rules for
/// text segmentation divide it.
pub uninterp spec fn grapheme_clusters(text: Seq<char>) -> Seq<Seq<char>>;

/// The parts one after another.
pub open spec fn joined(parts: Seq<Seq<char>>) -> Seq<char>
    decreases parts.len(),
{
    if parts.len() == 0 {
        Seq::empty()
    } else {
        joined(parts.drop_last()) + parts.last()
    }
}

/// `UnicodeSegmentation::graphemes` with extended clusters: the clusters are
/// the consecutive, non-empty pieces of `text` between cluster boundaries, so
/// joined they give `text` back.
#[verifier::external_body]
fn graphemes(text: &str) -> (clusters: Vec<String>)
    ensures
        clusters.deep_view() == grapheme_clusters(text@),
        joined(clusters.deep_view()) == text@,
        forall|i: int| 0 <= i < clusters.len() ==> (#[trigger] clusters[i])@.len() > 0,
{
    UnicodeSegmentation::graphemes(text, true).map(|g| g.to_string()).collect()
}

/// The character that stands in for a cluster the server cannot store.
pub open spec fn placeholder() -> char {
    '\u{2E2E}'
}

/// Whether a cluster takes four bytes or more in UTF-8.
pub open spec fn is_wide(cluster: Seq<char>) -> bool {
    encode_utf8(cluster).len() >= 4
}

/// What a cluster becomes for a server without support for wide characters.
pub open spec fn downgrade_cluster(cluster: Seq<char>) -> Seq<char> {
    if is_wide(cluster) {
        seq![placeholder()]
    } else {
        cluster
    }
}

/// The clusters, each downgraded, one after another.
pub open spec fn downgrade_clusters(clusters: Seq<Seq<char>>) -> Seq<char>
    decreases clusters.len(),
{
    if clusters.len() == 0 {
        Seq::empty()
    } else {
        downgrade_clusters(clusters.drop_last()) + downgrade_cluster(clusters.last())
    }
}

/// `text` for a server without support for wide characters.
pub open spec fn downgraded(text: Seq<char>) -> Seq<char> {
    downgrade_clusters(grapheme_clusters(text))
}

/// Clusters of which none is wide are kept as they are.
proof fn lemma_narrow_clusters_stay(clusters: Seq<Seq<char>>)
    requires
        forall|i: int| 0 <= i < clusters.len() ==> !is_wide(#[trigger] clusters[i]),
    ensures
        downgrade_clusters(clusters) == joined(clusters),
    decreases clusters.len(),
{
    if clusters.len() > 0 {
        lemma_narrow_clusters_stay(clusters.drop_last());
    }
}

/// In the downgraded text each cluster has its own piece, in the order of the
/// clusters: the placeholder for a wide cluster, the cluster itself otherwise.
pub proof fn lemma_downgrade_by_cluster(clusters: Seq<Seq<char>>, i: int)
    requires
        0 <= i < clusters.len(),
    ensures
        downgrade_clusters(clusters) == downgrade_clusters(clusters.take(i)) + downgrade_cluster(
            clusters[i],
        ) + downgrade_clusters(clusters.skip(i + 1)),
        is_wide(clusters[i]) ==> downgrade_cluster(clusters[i]) == seq![placeholder()],
        !is_wide(clusters[i]) ==> downgrade_cluster(clusters[i]) == clusters[i],
    decreases clusters.len(),
{
    let last = clusters.len() - 1;
    if i == last {
        assert(clusters.take(i) =~= clusters.drop_last());
        assert(clusters.skip(i + 1) =~= Seq::<Seq<char>>::empty());
        assert(downgrade_clusters(clusters.skip(i + 1)) =~= Seq::<char>::empty());
    } else {
        let front = clusters.drop_last();
        lemma_downgrade_by_cluster(front, i);
        assert(front.take(i) =~= clusters.take(i));
        assert(clusters.skip(i + 1).drop_last() =~= front.skip(i + 1));
        assert(clusters.skip(i + 1).last() == clusters.last());
        assert(downgrade_clusters(clusters) =~= downgrade_clusters(clusters.take(i))
            + downgrade_cluster(clusters[i]) + (downgrade_clusters(front.skip(i + 1))
            + downgrade_cluster(clusters.last())));
    }
}

/// The clusters one after another, each of four bytes or more replaced by
/// the placeholder.
pub fn downgrade(clusters: &Vec<String>) -> (r: String)
    ensures
        r@ == downgrade_clusters(clusters.deep_view()),
{
    let mut out = String::new();
    let n = clusters.len();
    let mut i: usize = 0;
    assert(clusters.deep_view().take(0) =~= Seq::<Seq<char>>::empty());
    while i < n
        invariant
            n == clusters.len(),
            i <= n,
            out@ == downgrade_clusters(clusters.deep_view().take(i as int)),
        decreases n - i,
    {
        let cluster = clusters[i].as_str();
        assert(clusters.deep_view().take(i + 1).drop_last() =~= clusters.deep_view().take(
            i as int,
        ));
        assert(clusters.deep_view().take(i + 1).last() == cluster@);
        if cluster.as_bytes().len() >= 4 {
            push_char(&mut out, '\u{2E2E}');
        } else {
            out.append(cluster);
        }
        i = i + 1;
    }
    assert(clusters.deep_view().take(n as int) =~= clusters.deep_view());
    out
}

/// The wide clusters among `clusters`, in order.
pub open spec fn wide_among(clusters: Seq<Seq<char>>) -> Seq<Seq<char>>
    decreases clusters.len(),
{
    if clusters.len() == 0 {
        Seq::empty()
    } else if is_wide(clusters.last()) {
        wide_among(clusters.drop_last()).push(clusters.last())
    } else {
        wide_among(clusters.drop_last())
    }
}

/// The clusters of four bytes or more among `clusters`, in order: those that
/// `downgrade` replaces.
pub fn wide_clusters(clusters: &Vec<String>) -> (wide: Vec<String>)
    ensures
        wide.deep_view() == wide_among(clusters.deep_view()),
{
    let mut wide: Vec<String> = Vec::new();
    let n = clusters.len();
    let mut i: usize = 0;
    assert(clusters.deep_view().take(0) =~= Seq::<Seq<char>>::empty());
    assert(wide.deep_view() =~= Seq::<Seq<char>>::empty());
    while i < n
        invariant
            n == clusters.len(),
            i <= n,
            wide.deep_view() == wide_among(clusters.deep_view().take(i as int)),
        decreases n - i,
    {
        let cluster = &clusters[i];
        assert(clusters.deep_view().take(i + 1).drop_last() =~= clusters.deep_view().take(
            i as int,
        ));
        assert(clusters.deep_view().take(i + 1).last() == cluster@);
        if cluster.as_str().as_bytes().len() >= 4 {
            let ghost before = wide.deep_view();
            wide.push(cluster.clone());
            assert(wide.deep_view() =~= before.push(cluster@));
        }
        i = i + 1;
    }
    assert(clusters.deep_view().take(n as int) =~= clusters.deep_view());
    wide
}

/// The clusters of `markdown` that are replaced on the way to a service that
/// takes wide characters, or does not: none, or the wide ones.
pub open spec fn replaced(markdown: Seq<char>, extended_text: bool) -> Seq<Seq<char>> {
    if extended_text {
        Seq::empty()
    } else {
        wide_among(grapheme_clusters(markdown))
    }
}

/// The clusters of `markdown` that `to_cdata` replaces, in order, for the
/// caller to report.
pub fn replaced_clusters(markdown: &str, extended_text: bool) -> (wide: Vec<String>)
    ensures
        wide.deep_view() == replaced(markdown@, extended_text),
{
    if extended_text {
        let none: Vec<String> = Vec::new();
        assert(none.deep_view() =~= Seq::<Seq<char>>::empty());
        none
    } else {
        let clusters = graphemes(markdown);
        wide_clusters(&clusters)
    }
}

/// `text` with every grapheme cluster of four bytes or more replaced by the
/// placeholder.
pub fn downgrade_text(text: &str) -> (r: String)
    ensures
        r@ == downgraded(text@),
        (forall|i: int|
            0 <= i < grapheme_clusters(text@).len() ==> !is_wide(
                #[trigger] grapheme_clusters(text@)[i],
            )) ==> r@ == text@,
{
    let clusters = graphemes(text);
    proof {
        if forall|i: int|
            0 <= i < grapheme_clusters(text@).len() ==> !is_wide(
                #[trigger] grapheme_clusters(text@)[i],
            ) {
            lemma_narrow_clusters_stay(grapheme_clusters(text@));
        }
    }
    downgrade(&clusters)
}

/// The CDATA block that carries `markdown` to the server: the text as it is
/// where the server takes wide characters, downgraded where it does not.
pub open spec fn cdata_block(markdown: Seq<char>, extended_text: bool) -> Seq<char> {
    cdata_text(
        if extended_text {
            markdown
        } else {
            downgraded(markdown)
        },
    )
}

/// What the remote service reads out of the block is the markdown itself
/// where it takes wide characters, and the downgraded markdown where it does
/// not: no `]]>` in the text ends the block early.
pub proof fn lemma_block_round_trip(markdown: Seq<char>, extended_text: bool)
    ensures
        read_sections(cdata_block(markdown, extended_text)) == Some(
            if extended_text {
                markdown
            } else {
                downgraded(markdown)
            },
        ),
{
    if extended_text {
        lemma_cdata_round_trip(markdown);
    } else {
        lemma_cdata_round_trip(downgraded(markdown));
    }
}

/// The CDATA block that carries `markdown` to a service that takes wide
/// characters, or does not.
pub fn to_cdata(markdown: &str, extended_text: bool) -> (r: String)
    ensures
        r@ == cdata_block(markdown@, extended_text),
{
    if extended_text {
        escape_to_cdata(markdown)
    } else {
        let plain = downgrade_text(markdown);
        escape_to_cdata(plain.as_str())
    }
}

/// What stands before the CDATA block in a page's content.
pub open spec fn macro_head() -> Seq<char> {
    "<ac:structured-macro ac:name=\"markdown\" ac:schema-version=\"1\" ac:macro-id=\"249327eb-2c99-42ca-a7a7-487e1c0c7e04\">\n           <ac:plain-text-body>"@
}

/// What stands after the CDATA block in a page's content.
pub open spec fn macro_tail() -> Seq<char> {
    "</ac:plain-text-body>\n        </ac:structured-macro>"@
}

/// The content of a page that shows `markdown`.
pub open spec fn page_content(markdown: Seq<char>, extended_text: bool) -> Seq<char> {
    macro_head() + cdata_block(markdown, extended_text) + macro_tail()
}

/// The content of a page that shows `markdown`: the macro for markdown around
/// the CDATA block.
pub fn to_page_content(markdown: &str, extended_text: bool) -> (r: String)
    ensures
        r@ == page_content(markdown@, extended_text),
{
    let mut out =
        "<ac:structured-macro ac:name=\"markdown\" ac:schema-version=\"1\" ac:macro-id=\"249327eb-2c99-42ca-a7a7-487e1c0c7e04\">\n           <ac:plain-text-body>".to_owned();
    let block = to_cdata(markdown, extended_text);
    out.append(block.as_str());
    out.append("</ac:plain-text-body>\n        </ac:structured-macro>");
    out
}

} // verus!
