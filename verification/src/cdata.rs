//! CDATA blocks: how a text is escaped for one, and why a reader gets it
//! back.

use crate::text::{push_char, to_chars};
use vstd::prelude::*;

verus! {

/// The marker that opens a CDATA section.
pub open spec fn cdata_open() -> Seq<char> {
    seq!['<', '!', '[', 'C', 'D', 'A', 'T', 'A', '[']
}

/// The marker that ends a CDATA section.
pub open spec fn cdata_close() -> Seq<char> {
    seq![']', ']', '>']
}

/// What stands in place of an end marker inside a body: the section is closed
/// after `]]` and a new one is opened before `>`.
pub open spec fn cdata_split() -> Seq<char> {
    seq![']', ']'] + cdata_close() + cdata_open() + seq!['>']
}

/// Whether the end marker `]]>` stands in `s` at index `i`.
pub open spec fn terminator_at(s: Seq<char>, i: int) -> bool {
    &&& 0 <= i
    &&& i + 3 <= s.len()
    &&& s[i] == ']'
    &&& s[i + 1] == ']'
    &&& s[i + 2] == '>'
}

/// `s` with every end marker, found from left to right without overlap,
/// replaced by `cdata_split()`.
pub open spec fn escape_cdata(s: Seq<char>) -> Seq<char>
    decreases s.len(),
{
    if s.len() == 0 {
        Seq::empty()
    } else if terminator_at(s, 0) {
        cdata_split() + escape_cdata(s.skip(3))
    } else {
        seq![s[0]] + escape_cdata(s.skip(1))
    }
}

/// `body` as CDATA text: one opening marker, the escaped body, one end marker.
pub open spec fn cdata_text(body: Seq<char>) -> Seq<char> {
    cdata_open() + escape_cdata(body) + cdata_close()
}

/// The index of the first end marker in `s` at or after `from`, or -1.
pub open spec fn first_terminator(s: Seq<char>, from: int) -> int
    decreases s.len() - from,
{
    if from < 0 || from + 3 > s.len() {
        -1
    } else if terminator_at(s, from) {
        from
    } else {
        first_terminator(s, from + 1)
    }
}

/// What an XML reader makes of `t` when `t` is a run of CDATA sections and
/// nothing else: each section starts with the opening marker and ends with the
/// first end marker after it, and the contents of the sections are joined.
/// `None` where `t` is no such run.
pub open spec fn read_sections(t: Seq<char>) -> Option<Seq<char>>
    decreases t.len(),
{
    if t.len() == 0 {
        Some(Seq::empty())
    } else if !cdata_open().is_prefix_of(t) {
        None
    } else {
        let body = t.skip(cdata_open().len() as int);
        let end = first_terminator(body, 0);
        if end < 0 || end + 3 > body.len() {
            None
        } else {
            match read_sections(body.skip(end + 3)) {
                Some(rest) => Some(body.take(end) + rest),
                None => None,
            }
        }
    }
}

/// The first end marker at or after `from` is the one at `end`, where none
/// stands between them.
proof fn lemma_first_terminator(s: Seq<char>, from: int, end: int)
    requires
        0 <= from <= end,
        terminator_at(s, end),
        forall|j: int| from <= j < end ==> !terminator_at(s, j),
    ensures
        first_terminator(s, from) == end,
    decreases end - from,
{
    if from < end {
        lemma_first_terminator(s, from + 1, end);
    }
}

/// How the escaped body, followed by the end marker, begins.
proof fn lemma_escaped_head(s: Seq<char>)
    ensures
        ({
            let f = escape_cdata(s) + cdata_close();
            &&& f.len() >= 3
            &&& f[0] == '>' ==> s.len() >= 1 && s[0] == '>'
            &&& f[0] == ']' && f[1] == '>' ==> s.len() >= 2 && s[0] == ']' && s[1] == '>'
        }),
{
    let f = escape_cdata(s) + cdata_close();
    if s.len() == 0 {
        assert(f =~= cdata_close());
    } else if terminator_at(s, 0) {
        assert(f[0] == ']' && f[1] == ']');
    } else {
        let tail = escape_cdata(s.skip(1)) + cdata_close();
        assert(f =~= seq![s[0]] + tail);
        assert(f[1] == tail[0]);
        lemma_escaped_head_first(s.skip(1));
        if tail[0] == '>' {
            assert(s.skip(1)[0] == s[1]);
        }
    }
}

/// The escaped body, followed by the end marker, begins with `>` only where
/// the body does.
proof fn lemma_escaped_head_first(s: Seq<char>)
    ensures
        ({
            let f = escape_cdata(s) + cdata_close();
            &&& f.len() >= 3
            &&& f[0] == '>' ==> s.len() >= 1 && s[0] == '>'
        }),
{
    let f = escape_cdata(s) + cdata_close();
    if s.len() == 0 {
        assert(f =~= cdata_close());
    } else if terminator_at(s, 0) {
        assert(f[0] == ']');
    } else {
        assert(f[0] == s[0]);
    }
}

/// Escaping brings no end marker forward: where none of `c + s` starts inside
/// `c`, none of `c` + escaped `s` + end marker does.
proof fn lemma_no_early_terminator(c: Seq<char>, s: Seq<char>)
    requires
        forall|i: int| 0 <= i < c.len() ==> !terminator_at(c + s, i),
    ensures
        forall|j: int|
            0 <= j < c.len() ==> !terminator_at(c + (escape_cdata(s) + cdata_close()), j),
{
    let f = escape_cdata(s) + cdata_close();
    let n = c.len() as int;
    lemma_escaped_head(s);
    assert forall|j: int| 0 <= j < n implies !terminator_at(c + f, j) by {
        assert(!terminator_at(c + s, j));
        assert((c + f)[j] == c[j] && (c + s)[j] == c[j]);
        if j + 3 <= n {
            assert((c + f)[j + 1] == (c + s)[j + 1]);
            assert((c + f)[j + 2] == (c + s)[j + 2]);
        } else if j + 2 == n {
            assert((c + f)[j + 1] == c[j + 1] && (c + s)[j + 1] == c[j + 1]);
            assert((c + f)[j + 2] == f[0]);
            if f[0] == '>' {
                assert((c + s)[j + 2] == s[0]);
            }
        } else {
            assert((c + f)[j + 1] == f[0]);
            assert((c + f)[j + 2] == f[1]);
            if f[0] == ']' && f[1] == '>' {
                assert((c + s)[j + 1] == s[0]);
                assert((c + s)[j + 2] == s[1]);
            }
        }
    }
}

/// Whether a reader that stands inside a section, at the start of `body`,
/// gets `content` from there to the end of the text.
#[verifier::opaque]
spec fn reads_as(body: Seq<char>, content: Seq<char>) -> bool {
    let end = first_terminator(body, 0);
    &&& 0 <= end
    &&& end + 3 <= body.len()
    &&& read_sections(body.skip(end + 3)) matches Some(rest)
    &&& body.take(end) + rest == content
}

/// A section that holds `c` and is then ended reads as `c`.
proof fn lemma_read_last(c: Seq<char>)
    requires
        forall|j: int| 0 <= j < c.len() ==> !terminator_at(c + cdata_close(), j),
    ensures
        reads_as(c + cdata_close(), c),
{
    reveal(reads_as);
    let body = c + cdata_close();
    let n = c.len() as int;
    assert(terminator_at(body, n));
    lemma_first_terminator(body, 0, n);
    assert(body.skip(n + 3) =~= Seq::<char>::empty());
    assert(body.take(n) + Seq::<char>::empty() =~= c);
}

/// A section that holds `c` and is then split reads as `c`, `]]`, and what
/// the section opened by the split reads as.
proof fn lemma_read_split(c: Seq<char>, g: Seq<char>, want: Seq<char>)
    requires
        forall|j: int| 0 <= j < c.len() ==> !terminator_at(c + (cdata_split() + g), j),
        reads_as(seq!['>'] + g, want),
    ensures
        reads_as(c + (cdata_split() + g), c + seq![']', ']'] + want),
{
    reveal(reads_as);
    let body = c + (cdata_split() + g);
    let n = c.len() as int;
    let end = n + 2;
    let inner = seq!['>'] + g;
    assert(cdata_split() =~= seq![']', ']'] + cdata_close() + cdata_open() + seq!['>']);
    assert(cdata_split().len() == 15);
    assert(body[n] == cdata_split()[0] && body[n + 1] == cdata_split()[1] && body[n + 2]
        == cdata_split()[2] && body[n + 3] == cdata_split()[3] && body[n + 4] == cdata_split()[4]);
    assert(!terminator_at(body, n));
    assert(!terminator_at(body, n + 1));
    assert(terminator_at(body, end));
    lemma_first_terminator(body, 0, end);
    let next = body.skip(end + 3);
    assert(next =~= cdata_open() + inner);
    assert(cdata_open().is_prefix_of(next));
    assert(next.skip(cdata_open().len() as int) =~= inner);
    assert(read_sections(next) == Some(want));
    assert(body.take(end) =~= c + seq![']', ']']);
}

/// Reading on from inside a section: `c` is what the section holds so far and
/// no end marker of `c + s` starts inside `c`.
proof fn lemma_read_body(c: Seq<char>, s: Seq<char>)
    requires
        forall|i: int| 0 <= i < c.len() ==> !terminator_at(c + s, i),
    ensures
        reads_as(c + (escape_cdata(s) + cdata_close()), c + s),
    decreases s.len(),
{
    let body = c + (escape_cdata(s) + cdata_close());
    let n = c.len() as int;
    lemma_no_early_terminator(c, s);
    if s.len() == 0 {
        assert(escape_cdata(s) + cdata_close() =~= cdata_close());
        assert(c + s =~= c);
        lemma_read_last(c);
    } else if terminator_at(s, 0) {
        let tail = s.skip(3);
        let held = seq!['>'];
        let g = escape_cdata(tail) + cdata_close();
        assert(escape_cdata(s) + cdata_close() =~= cdata_split() + g);
        assert forall|i: int| 0 <= i < held.len() implies !terminator_at(held + tail, i) by {
            assert((held + tail)[0] == '>');
        }
        lemma_read_body(held, tail);
        lemma_read_split(c, g, held + tail);
        assert(c + seq![']', ']'] + (held + tail) =~= c + s);
    } else {
        let tail = s.skip(1);
        let held = c.push(s[0]);
        assert(held + tail =~= c + s);
        assert(body =~= held + (escape_cdata(tail) + cdata_close()));
        assert forall|i: int| 0 <= i < held.len() implies !terminator_at(held + tail, i) by {
            if i == n && n + 3 <= (c + s).len() {
                assert((c + s)[n] == s[0]);
                assert((c + s)[n + 1] == s[1]);
                assert((c + s)[n + 2] == s[2]);
            }
        }
        lemma_read_body(held, tail);
    }
}

/// A reader that takes the output of `cdata_text` for a run of CDATA sections
/// gets the body back, whatever the body holds: none of its own `]]>` ends a
/// section early, and none is lost.
pub proof fn lemma_cdata_round_trip(body: Seq<char>)
    ensures
        read_sections(cdata_text(body)) == Some(body),
{
    let t = cdata_text(body);
    let none = Seq::<char>::empty();
    assert(cdata_open().is_prefix_of(t));
    let inner = t.skip(cdata_open().len() as int);
    assert(inner =~= none + (escape_cdata(body) + cdata_close()));
    assert(none + body =~= body);
    lemma_read_body(none, body);
    reveal(reads_as);
}

/// The text of a CDATA block that holds `body`.
pub fn escape_to_cdata(body: &str) -> (r: String)
    ensures
        r@ == cdata_text(body@),
{
    let chars = to_chars(body);
    let mut out = String::new();
    push_open(&mut out);
    let ghost head = out@;
    let n = chars.len();
    let mut i: usize = 0;
    assert(chars@.skip(0) =~= chars@);
    while i < n
        invariant
            n == chars.len(),
            i <= n,
            head + escape_cdata(chars@) == out@ + escape_cdata(chars@.skip(i as int)),
        decreases n - i,
    {
        let ghost rest = chars@.skip(i as int);
        if chars[i] == ']' && n - i >= 3 && chars[i + 1] == ']' && chars[i + 2] == '>' {
            assert(terminator_at(rest, 0));
            assert(rest.skip(3) =~= chars@.skip(i + 3));
            let ghost before = out@;
            push_char(&mut out, ']');
            push_char(&mut out, ']');
            push_close(&mut out);
            push_open(&mut out);
            push_char(&mut out, '>');
            assert(out@ =~= before + cdata_split());
            i = i + 3;
        } else {
            assert(!terminator_at(rest, 0));
            assert(rest.skip(1) =~= chars@.skip(i + 1));
            push_char(&mut out, chars[i]);
            i = i + 1;
        }
    }
    push_close(&mut out);
    out
}

/// Appends the opening marker.
fn push_open(out: &mut String)
    ensures
        final(out)@ == old(out)@ + cdata_open(),
{
    push_char(out, '<');
    push_char(out, '!');
    push_char(out, '[');
    push_char(out, 'C');
    push_char(out, 'D');
    push_char(out, 'A');
    push_char(out, 'T');
    push_char(out, 'A');
    push_char(out, '[');
    assert(out@ =~= old(out)@ + cdata_open());
}

/// Appends the end marker.
fn push_close(out: &mut String)
    ensures
        final(out)@ == old(out)@ + cdata_close(),
{
    push_char(out, ']');
    push_char(out, ']');
    push_char(out, '>');
    assert(out@ =~= old(out)@ + cdata_close());
}

} // verus!
