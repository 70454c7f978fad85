//! The persisted JSON form of a document snapshot.
//!
//! The format is fixed field-for-field: a document is
//! `{"tree":NODE,"meta":{"labels":{...}}}`, a node is
//! `{"contents":[CONTENT,...],"children":[NODE,...]}`, and a content entry
//! is an object with exactly one of the tags `"Written"`, `"Comment"` or
//! `"Generated"`. Strings quote `"` and `\` with a backslash and carry
//! every other character verbatim — including control characters, which
//! strict JSON would escape: a payload holding one round-trips through
//! this codec, but the file it yields may be refused by stricter JSON
//! readers, and this parser does not accept the `\n`-style or `\uXXXX`
//! escapes such a reader's writer would emit.
//!
//! [`ser_document`] *is* the format: [`serialize`] produces exactly that
//! character sequence, and [`deserialize`] accepts an input only if the
//! snapshot it returns serializes back to that same input.

use vstd::prelude::*;
use vstd::string::StrSliceExecFns;
use vstd::string::StringExecFns;

use crate::content::{Authored, Content, Generated, SharedMetadata};
use crate::document::{DocumentSnapshot, NodeSnapshot};
use crate::laws::{lemma_cancel, lemma_esc_front, lemma_shift};

verus! {

/// The escaped form of one character inside a JSON string literal.
pub open spec fn esc_char(c: char) -> Seq<char> {
    if c == '"' || c == '\\' {
        seq!['\\', c]
    } else {
        seq![c]
    }
}

/// The escaped form of a whole string body.
pub open spec fn esc(s: Seq<char>) -> Seq<char>
    decreases s.len(),
{
    if s.len() == 0 {
        Seq::empty()
    } else {
        esc(s.drop_last()) + esc_char(s.last())
    }
}

/// A JSON string literal: the escaped body between double quotes.
pub open spec fn ser_str(s: Seq<char>) -> Seq<char> {
    seq!['"'] + esc(s) + seq!['"']
}

/// The object form of one authored entry.
pub open spec fn ser_authored(a: Authored) -> Seq<char> {
    ("{\"author\":")@ + ser_str(a.author@) + (",\"modified\":")@ + ser_str(a.modified@)
        + (",\"content\":")@ + ser_str(a.content@) + ("}")@
}

/// The object form of one generation record.
pub open spec fn ser_generated(g: Generated) -> Seq<char> {
    ("{\"generator\":")@ + ser_str(g.generator@) + (",\"start\":")@ + ser_str(g.start@)
        + (",\"finish\":")@ + ser_str(g.finish@) + (",\"config\":")@ + ser_str(g.config@)
        + (",\"output\":")@ + ser_str(g.output@) + ("}")@
}

/// The tagged form of one content entry.
pub open spec fn ser_content(c: Content) -> Seq<char> {
    match c {
        Content::Written(a) => ("{\"Written\":")@ + ser_authored(a) + ("}")@,
        Content::Comment(a) => ("{\"Comment\":")@ + ser_authored(a) + ("}")@,
        Content::Generated(g) => ("{\"Generated\":")@ + ser_generated(g) + ("}")@,
    }
}

/// Comma-separated content entries.
pub open spec fn ser_content_items(cs: Seq<Content>) -> Seq<char>
    decreases cs.len(),
{
    if cs.len() == 0 {
        Seq::empty()
    } else if cs.len() == 1 {
        ser_content(cs[0])
    } else {
        ser_content_items(cs.drop_last()) + (",")@ + ser_content(cs.last())
    }
}

/// A JSON array of content entries.
pub open spec fn ser_content_array(cs: Seq<Content>) -> Seq<char> {
    ("[")@ + ser_content_items(cs) + ("]")@
}

/// Comma-separated `"id":"name"` members of the label object.
pub open spec fn ser_label_items(ls: Seq<(String, String)>) -> Seq<char>
    decreases ls.len(),
{
    if ls.len() == 0 {
        Seq::empty()
    } else if ls.len() == 1 {
        ser_str(ls[0].0@) + (":")@ + ser_str(ls[0].1@)
    } else {
        ser_label_items(ls.drop_last()) + (",")@ + ser_str(ls.last().0@) + (":")@
            + ser_str(ls.last().1@)
    }
}

/// The object form of the shared metadata.
pub open spec fn ser_meta(m: SharedMetadata) -> Seq<char> {
    ("{\"labels\":{")@ + ser_label_items(m.entries()) + ("}}")@
}

/// The object form of one snapshot node.
pub open spec fn ser_node(n: NodeSnapshot) -> Seq<char>
    decreases n,
{
    ("{\"contents\":")@ + ser_content_array(n.contents@) + (",\"children\":")@ + ("[")@
        + ser_node_items(n.children@) + ("]")@ + ("}")@
}

/// Comma-separated snapshot nodes.
pub open spec fn ser_node_items(ns: Seq<NodeSnapshot>) -> Seq<char>
    decreases ns,
{
    if ns.len() == 0 {
        Seq::empty()
    } else if ns.len() == 1 {
        ser_node(ns[0])
    } else {
        ser_node_items(ns.drop_last()) + (",")@ + ser_node(ns.last())
    }
}

/// The object form of a whole document snapshot.
pub open spec fn ser_document(d: DocumentSnapshot) -> Seq<char> {
    ("{\"tree\":")@ + ser_node(d.tree) + (",\"meta\":")@ + ser_meta(d.meta) + ("}")@
}

/// Relies on `String::push`: appends one character at the end.
#[verifier::external_body]
fn push_char(out: &mut String, c: char)
    ensures
        final(out)@ == old(out)@ + seq![c],
{
    out.push(c);
}

/// Writes `v` as a JSON string literal.
fn write_str(out: &mut String, v: &str)
    ensures
        final(out)@ == old(out)@ + ser_str(v@),
{
    let ghost base: Seq<char> = out@;
    push_char(out, '"');
    let n = v.unicode_len();
    let mut k: usize = 0;
    while k < n
        invariant
            k <= n,
            n == v@.len(),
            out@ == base + seq!['"'] + esc(v@.subrange(0, k as int)),
        decreases n - k,
    {
        let c = v.get_char(k);
        proof {
            let post = v@.subrange(0, k as int + 1);
            assert(post.drop_last() =~= v@.subrange(0, k as int));
            assert(post.last() == c);
        }
        if c == '"' || c == '\\' {
            push_char(out, '\\');
            push_char(out, c);
            assert(out@ =~= base + seq!['"'] + esc(v@.subrange(0, k as int + 1)));
        } else {
            push_char(out, c);
            assert(out@ =~= base + seq!['"'] + esc(v@.subrange(0, k as int + 1)));
        }
        k = k + 1;
    }
    proof {
        assert(v@.subrange(0, v@.len() as int) =~= v@);
    }
    push_char(out, '"');
    assert(out@ =~= base + ser_str(v@));
}

/// Writes one authored entry.
fn write_authored(out: &mut String, a: &Authored)
    ensures
        final(out)@ == old(out)@ + ser_authored(*a),
{
    let ghost base: Seq<char> = out@;
    out.append("{\"author\":");
    write_str(out, a.author.as_str());
    out.append(",\"modified\":");
    write_str(out, a.modified.as_str());
    out.append(",\"content\":");
    write_str(out, a.content.as_str());
    out.append("}");
    assert(out@ =~= base + ser_authored(*a));
}

/// Writes one generation record.
fn write_generated(out: &mut String, g: &Generated)
    ensures
        final(out)@ == old(out)@ + ser_generated(*g),
{
    let ghost base: Seq<char> = out@;
    out.append("{\"generator\":");
    write_str(out, g.generator.as_str());
    out.append(",\"start\":");
    write_str(out, g.start.as_str());
    out.append(",\"finish\":");
    write_str(out, g.finish.as_str());
    out.append(",\"config\":");
    write_str(out, g.config.as_str());
    out.append(",\"output\":");
    write_str(out, g.output.as_str());
    out.append("}");
    assert(out@ =~= base + ser_generated(*g));
}

/// Writes one tagged content entry.
fn write_content(out: &mut String, c: &Content)
    ensures
        final(out)@ == old(out)@ + ser_content(*c),
{
    let ghost base: Seq<char> = out@;
    match c {
        Content::Written(a) => {
            out.append("{\"Written\":");
            write_authored(out, a);
            out.append("}");
        },
        Content::Comment(a) => {
            out.append("{\"Comment\":");
            write_authored(out, a);
            out.append("}");
        },
        Content::Generated(g) => {
            out.append("{\"Generated\":");
            write_generated(out, g);
            out.append("}");
        },
    }
    assert(out@ =~= base + ser_content(*c));
}

/// Writes a JSON array of content entries.
fn write_content_array(out: &mut String, cs: &Vec<Content>)
    ensures
        final(out)@ == old(out)@ + ser_content_array(cs@),
{
    let ghost base: Seq<char> = out@;
    out.append("[");
    let mut k: usize = 0;
    while k < cs.len()
        invariant
            k <= cs@.len(),
            out@ == base + ("[")@ + ser_content_items(cs@.subrange(0, k as int)),
        decreases cs@.len() - k,
    {
        if k > 0 {
            out.append(",");
        }
        write_content(out, &cs[k]);
        proof {
            let post = cs@.subrange(0, k as int + 1);
            assert(post.drop_last() =~= cs@.subrange(0, k as int));
            assert(post.last() == cs@[k as int]);
            assert(out@ =~= base + ("[")@ + ser_content_items(post));
        }
        k = k + 1;
    }
    proof {
        assert(cs@.subrange(0, cs@.len() as int) =~= cs@);
    }
    out.append("]");
    assert(out@ =~= base + ser_content_array(cs@));
}

/// Writes the shared metadata object.
fn write_meta(out: &mut String, m: &SharedMetadata)
    ensures
        final(out)@ == old(out)@ + ser_meta(*m),
{
    let ghost base: Seq<char> = out@;
    out.append("{\"labels\":{");
    let ls = m.entry_list();
    let mut k: usize = 0;
    while k < ls.len()
        invariant
            k <= ls@.len(),
            ls@ == m.entries(),
            out@ == base + ("{\"labels\":{")@ + ser_label_items(ls@.subrange(0, k as int)),
        decreases ls@.len() - k,
    {
        if k > 0 {
            out.append(",");
        }
        write_str(out, ls[k].0.as_str());
        out.append(":");
        write_str(out, ls[k].1.as_str());
        proof {
            let post = ls@.subrange(0, k as int + 1);
            assert(post.drop_last() =~= ls@.subrange(0, k as int));
            assert(post.last() == ls@[k as int]);
            assert(out@ =~= base + ("{\"labels\":{")@ + ser_label_items(post));
        }
        k = k + 1;
    }
    proof {
        assert(ls@.subrange(0, ls@.len() as int) =~= ls@);
    }
    out.append("}}");
    assert(out@ =~= base + ser_meta(*m));
}

/// Writes one snapshot node, recursing through its children.
fn write_node(out: &mut String, n: &NodeSnapshot)
    ensures
        final(out)@ == old(out)@ + ser_node(*n),
    decreases *n,
{
    let ghost base: Seq<char> = out@;
    out.append("{\"contents\":");
    write_content_array(out, &n.contents);
    out.append(",\"children\":");
    out.append("[");
    let mut k: usize = 0;
    while k < n.children.len()
        invariant
            k <= n.children@.len(),
            out@ == base + ("{\"contents\":")@ + ser_content_array(n.contents@)
                + (",\"children\":")@ + ("[")@ + ser_node_items(n.children@.subrange(0, k as int)),
        decreases n.children@.len() - k,
    {
        if k > 0 {
            out.append(",");
        }
        proof {
            assert(n.children@[k as int] == n.children[k as int]);
        }
        write_node(out, &n.children[k]);
        proof {
            let post = n.children@.subrange(0, k as int + 1);
            assert(post.drop_last() =~= n.children@.subrange(0, k as int));
            assert(post.last() == n.children@[k as int]);
            assert(out@ =~= base + ("{\"contents\":")@ + ser_content_array(n.contents@)
                + (",\"children\":")@ + ("[")@ + ser_node_items(post));
        }
        k = k + 1;
    }
    proof {
        assert(n.children@.subrange(0, n.children@.len() as int) =~= n.children@);
    }
    out.append("]");
    out.append("}");
    assert(out@ =~= base + ser_node(*n));
}

/// Serializes a document snapshot to its JSON text: the result is exactly
/// [`ser_document`] of the snapshot.
pub fn serialize(d: &DocumentSnapshot) -> (out: String)
    ensures
        out@ == ser_document(*d),
{
    let mut out = String::new();
    out.append("{\"tree\":");
    write_node(&mut out, &d.tree);
    out.append(",\"meta\":");
    write_meta(&mut out, &d.meta);
    out.append("}");
    assert(out@ =~= ser_document(*d));
    out
}

/// A data failure: the text is not the serialization of any snapshot this
/// schema accepts.
#[derive(Debug, PartialEq, Eq)]
pub struct DataError {}

/// Relies on `str`'s `==`: character-for-character equality.
#[verifier::external_body]
fn str_eq(a: &str, b: &str) -> (r: bool)
    ensures
        r == (a@ == b@),
{
    a == b
}

/// The text of `s` between `i` and `j` is exactly the serialized form of
/// the string `v`.
pub open spec fn str_at(s: Seq<char>, i: int, j: int, v: Seq<char>) -> bool {
    0 <= i <= j <= s.len() && s.subrange(i, j) == ser_str(v)
}

/// Splitting one piece off the front of a decomposed region.
proof fn peel(s: Seq<char>, p: int, q: int, n: int, x: Seq<char>, t: Seq<char>)
    requires
        0 <= p <= q <= n <= s.len(),
        q - p == x.len(),
        s.subrange(p, n) == x + t,
    ensures
        s.subrange(p, q) == x,
        s.subrange(q, n) == t,
{
    assert(s.subrange(p, n) =~= s.subrange(p, q) + s.subrange(q, n));
    lemma_cancel(s.subrange(p, q), x, s.subrange(q, n), t);
}

/// What a serialized string occupying `[i, j0)` pins down: the quotes at
/// both ends and the escaped body between them.
proof fn lemma_str_at_parts(s: Seq<char>, i: int, j0: int, v: Seq<char>)
    requires
        str_at(s, i, j0, v),
    ensures
        j0 - i == 2 + esc(v).len(),
        s[i] == '"',
        s[j0 - 1] == '"',
        s.subrange(i + 1, j0 - 1) == esc(v),
{
    assert(ser_str(v).len() == 2 + esc(v).len());
    assert((seq!['"'] + esc(v))[0] == '"');
    assert(ser_str(v)[0] == '"');
    assert(ser_str(v)[ser_str(v).len() - 1] == '"');
    assert(s[i] == s.subrange(i, j0)[0]);
    assert(s[j0 - 1] == s.subrange(i, j0)[j0 - i - 1]);
    assert forall|k: int| 0 <= k < esc(v).len() implies s.subrange(i + 1, j0 - 1)[k] == esc(v)[k] by {
        assert(s.subrange(i + 1, j0 - 1)[k] == s[i + 1 + k]);
        assert(s.subrange(i, j0)[1 + k] == s[i + 1 + k]);
        assert(ser_str(v)[1 + k] == (seq!['"'] + esc(v))[1 + k]);
        assert((seq!['"'] + esc(v))[1 + k] == esc(v)[k]);
    }
    assert(s.subrange(i + 1, j0 - 1) =~= esc(v));
}

/// The text of `s` between `i` and `j` is exactly one serialized authored
/// entry.
pub open spec fn authored_at(s: Seq<char>, i: int, j: int, a: Authored) -> bool {
    0 <= i <= j <= s.len() && s.subrange(i, j) == ser_authored(a)
}

/// The text of `s` between `i` and `j` is exactly one serialized
/// generation record.
pub open spec fn generated_at(s: Seq<char>, i: int, j: int, g: Generated) -> bool {
    0 <= i <= j <= s.len() && s.subrange(i, j) == ser_generated(g)
}

/// The text of `s` between `i` and `j` is exactly one serialized content
/// entry.
pub open spec fn content_at(s: Seq<char>, i: int, j: int, c: Content) -> bool {
    0 <= i <= j <= s.len() && s.subrange(i, j) == ser_content(c)
}

/// Two serialized strings starting at the same position end at the same
/// position.
proof fn align_str(s: Seq<char>, p: int, p2: int, q2: int, v: Seq<char>, x: Seq<char>)
    requires
        0 <= p <= p2 <= s.len(),
        p <= q2 <= s.len(),
        s.subrange(p, p2) == ser_str(v),
        s.subrange(p, q2) == ser_str(x),
    ensures
        v == x,
        p2 == q2,
{
    let n = s.len() as int;
    assert(s.subrange(p, n) =~= s.subrange(p, p2) + s.subrange(p2, n));
    assert(s.subrange(p, n) =~= s.subrange(p, q2) + s.subrange(q2, n));
    crate::laws::lemma_ser_str_prefix(v, x, s.subrange(p2, n), s.subrange(q2, n));
    assert(s.subrange(p2, n).len() == n - p2);
    assert(s.subrange(q2, n).len() == n - q2);
}

/// Two serialized authored entries starting at the same position end at
/// the same position.
proof fn align_authored(s: Seq<char>, p: int, p2: int, q2: int, a: Authored, b: Authored)
    requires
        0 <= p <= p2 <= s.len(),
        p <= q2 <= s.len(),
        s.subrange(p, p2) == ser_authored(a),
        s.subrange(p, q2) == ser_authored(b),
    ensures
        p2 == q2,
{
    let n = s.len() as int;
    assert(s.subrange(p, n) =~= s.subrange(p, p2) + s.subrange(p2, n));
    assert(s.subrange(p, n) =~= s.subrange(p, q2) + s.subrange(q2, n));
    crate::laws::lemma_ser_authored_prefix(a, b, s.subrange(p2, n), s.subrange(q2, n));
    assert(s.subrange(p2, n).len() == n - p2);
    assert(s.subrange(q2, n).len() == n - q2);
}

/// Two serialized generation records starting at the same position end at
/// the same position.
proof fn align_generated(s: Seq<char>, p: int, p2: int, q2: int, a: Generated, b: Generated)
    requires
        0 <= p <= p2 <= s.len(),
        p <= q2 <= s.len(),
        s.subrange(p, p2) == ser_generated(a),
        s.subrange(p, q2) == ser_generated(b),
    ensures
        p2 == q2,
{
    let n = s.len() as int;
    assert(s.subrange(p, n) =~= s.subrange(p, p2) + s.subrange(p2, n));
    assert(s.subrange(p, n) =~= s.subrange(p, q2) + s.subrange(q2, n));
    crate::laws::lemma_ser_generated_prefix(a, b, s.subrange(p2, n), s.subrange(q2, n));
    assert(s.subrange(p2, n).len() == n - p2);
    assert(s.subrange(q2, n).len() == n - q2);
}

/// Two serialized content entries starting at the same position end at the
/// same position.
proof fn align_content(s: Seq<char>, p: int, p2: int, q2: int, a: Content, b: Content)
    requires
        0 <= p <= p2 <= s.len(),
        p <= q2 <= s.len(),
        s.subrange(p, p2) == ser_content(a),
        s.subrange(p, q2) == ser_content(b),
    ensures
        p2 == q2,
{
    let n = s.len() as int;
    assert(s.subrange(p, n) =~= s.subrange(p, p2) + s.subrange(p2, n));
    assert(s.subrange(p, n) =~= s.subrange(p, q2) + s.subrange(q2, n));
    crate::laws::lemma_ser_content_prefix(a, b, s.subrange(p2, n), s.subrange(q2, n));
    assert(s.subrange(p2, n).len() == n - p2);
    assert(s.subrange(q2, n).len() == n - q2);
}

/// What a serialized authored entry occupying `[i, j0)` pins down: every
/// field literal and string in its place.
proof fn lemma_authored_at_parts(s: Seq<char>, i: int, j0: int, a: Authored)
    requires
        authored_at(s, i, j0, a),
    ensures
        ({
            let q1 = i + ("{\"author\":")@.len();
            let q2 = q1 + ser_str(a.author@).len();
            let q3 = q2 + (",\"modified\":")@.len();
            let q4 = q3 + ser_str(a.modified@).len();
            let q5 = q4 + (",\"content\":")@.len();
            let q6 = q5 + ser_str(a.content@).len();
            &&& j0 == q6 + ("}")@.len()
            &&& s.subrange(i, q1) == ("{\"author\":")@
            &&& str_at(s, q1, q2, a.author@)
            &&& s.subrange(q2, q3) == (",\"modified\":")@
            &&& str_at(s, q3, q4, a.modified@)
            &&& s.subrange(q4, q5) == (",\"content\":")@
            &&& str_at(s, q5, q6, a.content@)
            &&& s.subrange(q6, j0) == ("}")@
        }),
{
    let l1 = ("{\"author\":")@;
    let l2 = (",\"modified\":")@;
    let l3 = (",\"content\":")@;
    let l4 = ("}")@;
    let s1 = ser_str(a.author@);
    let s2 = ser_str(a.modified@);
    let s3 = ser_str(a.content@);
    let q1 = i + l1.len();
    let q2 = q1 + s1.len();
    let q3 = q2 + l2.len();
    let q4 = q3 + s2.len();
    let q5 = q4 + l3.len();
    let q6 = q5 + s3.len();
    let n = s.len() as int;
    let rest = s.subrange(j0, n);
    assert(s.subrange(i, j0).len() == ser_authored(a).len());
    assert(s.subrange(i, n) =~= s.subrange(i, j0) + rest);
    lemma_shift(l1 + s1 + l2 + s2 + l3 + s3, l4, rest);
    lemma_shift(l1 + s1 + l2 + s2 + l3, s3, l4 + rest);
    lemma_shift(l1 + s1 + l2 + s2, l3, s3 + (l4 + rest));
    lemma_shift(l1 + s1 + l2, s2, l3 + (s3 + (l4 + rest)));
    lemma_shift(l1 + s1, l2, s2 + (l3 + (s3 + (l4 + rest))));
    lemma_shift(l1, s1, l2 + (s2 + (l3 + (s3 + (l4 + rest)))));
    assert(s.subrange(i, n) == l1 + (s1 + (l2 + (s2 + (l3 + (s3 + (l4 + rest)))))));
    peel(s, i, q1, n, l1, s1 + (l2 + (s2 + (l3 + (s3 + (l4 + rest))))));
    peel(s, q1, q2, n, s1, l2 + (s2 + (l3 + (s3 + (l4 + rest)))));
    peel(s, q2, q3, n, l2, s2 + (l3 + (s3 + (l4 + rest))));
    peel(s, q3, q4, n, s2, l3 + (s3 + (l4 + rest)));
    peel(s, q4, q5, n, l3, s3 + (l4 + rest));
    peel(s, q5, q6, n, s3, l4 + rest);
    peel(s, q6, q6 + l4.len(), n, l4, rest);
}

/// What a serialized generation record occupying `[i, j0)` pins down.
proof fn lemma_generated_at_parts(s: Seq<char>, i: int, j0: int, g: Generated)
    requires
        generated_at(s, i, j0, g),
    ensures
        ({
            let q1 = i + ("{\"generator\":")@.len();
            let q2 = q1 + ser_str(g.generator@).len();
            let q3 = q2 + (",\"start\":")@.len();
            let q4 = q3 + ser_str(g.start@).len();
            let q5 = q4 + (",\"finish\":")@.len();
            let q6 = q5 + ser_str(g.finish@).len();
            let q7 = q6 + (",\"config\":")@.len();
            let q8 = q7 + ser_str(g.config@).len();
            let q9 = q8 + (",\"output\":")@.len();
            let q10 = q9 + ser_str(g.output@).len();
            &&& j0 == q10 + ("}")@.len()
            &&& s.subrange(i, q1) == ("{\"generator\":")@
            &&& str_at(s, q1, q2, g.generator@)
            &&& s.subrange(q2, q3) == (",\"start\":")@
            &&& str_at(s, q3, q4, g.start@)
            &&& s.subrange(q4, q5) == (",\"finish\":")@
            &&& str_at(s, q5, q6, g.finish@)
            &&& s.subrange(q6, q7) == (",\"config\":")@
            &&& str_at(s, q7, q8, g.config@)
            &&& s.subrange(q8, q9) == (",\"output\":")@
            &&& str_at(s, q9, q10, g.output@)
            &&& s.subrange(q10, j0) == ("}")@
        }),
{
    let l1 = ("{\"generator\":")@;
    let l2 = (",\"start\":")@;
    let l3 = (",\"finish\":")@;
    let l4 = (",\"config\":")@;
    let l5 = (",\"output\":")@;
    let l6 = ("}")@;
    let s1 = ser_str(g.generator@);
    let s2 = ser_str(g.start@);
    let s3 = ser_str(g.finish@);
    let s4 = ser_str(g.config@);
    let s5 = ser_str(g.output@);
    let q1 = i + l1.len();
    let q2 = q1 + s1.len();
    let q3 = q2 + l2.len();
    let q4 = q3 + s2.len();
    let q5 = q4 + l3.len();
    let q6 = q5 + s3.len();
    let q7 = q6 + l4.len();
    let q8 = q7 + s4.len();
    let q9 = q8 + l5.len();
    let q10 = q9 + s5.len();
    let n = s.len() as int;
    let rest = s.subrange(j0, n);
    assert(s.subrange(i, j0).len() == ser_generated(g).len());
    assert(s.subrange(i, n) =~= s.subrange(i, j0) + rest);
    lemma_shift(l1 + s1 + l2 + s2 + l3 + s3 + l4 + s4 + l5 + s5, l6, rest);
    lemma_shift(l1 + s1 + l2 + s2 + l3 + s3 + l4 + s4 + l5, s5, l6 + rest);
    lemma_shift(l1 + s1 + l2 + s2 + l3 + s3 + l4 + s4, l5, s5 + (l6 + rest));
    lemma_shift(l1 + s1 + l2 + s2 + l3 + s3 + l4, s4, l5 + (s5 + (l6 + rest)));
    lemma_shift(l1 + s1 + l2 + s2 + l3 + s3, l4, s4 + (l5 + (s5 + (l6 + rest))));
    lemma_shift(l1 + s1 + l2 + s2 + l3, s3, l4 + (s4 + (l5 + (s5 + (l6 + rest)))));
    lemma_shift(l1 + s1 + l2 + s2, l3, s3 + (l4 + (s4 + (l5 + (s5 + (l6 + rest))))));
    lemma_shift(l1 + s1 + l2, s2, l3 + (s3 + (l4 + (s4 + (l5 + (s5 + (l6 + rest)))))));
    lemma_shift(l1 + s1, l2, s2 + (l3 + (s3 + (l4 + (s4 + (l5 + (s5 + (l6 + rest))))))));
    lemma_shift(l1, s1, l2 + (s2 + (l3 + (s3 + (l4 + (s4 + (l5 + (s5 + (l6 + rest)))))))));
    assert(s.subrange(i, n) == l1 + (s1 + (l2 + (s2 + (l3 + (s3 + (l4 + (s4 + (l5 + (s5 + (l6
        + rest)))))))))));
    peel(s, i, q1, n, l1, s1 + (l2 + (s2 + (l3 + (s3 + (l4 + (s4 + (l5 + (s5 + (l6 + rest))))))))));
    peel(s, q1, q2, n, s1, l2 + (s2 + (l3 + (s3 + (l4 + (s4 + (l5 + (s5 + (l6 + rest)))))))));
    peel(s, q2, q3, n, l2, s2 + (l3 + (s3 + (l4 + (s4 + (l5 + (s5 + (l6 + rest))))))));
    peel(s, q3, q4, n, s2, l3 + (s3 + (l4 + (s4 + (l5 + (s5 + (l6 + rest)))))));
    peel(s, q4, q5, n, l3, s3 + (l4 + (s4 + (l5 + (s5 + (l6 + rest))))));
    peel(s, q5, q6, n, s3, l4 + (s4 + (l5 + (s5 + (l6 + rest)))));
    peel(s, q6, q7, n, l4, s4 + (l5 + (s5 + (l6 + rest))));
    peel(s, q7, q8, n, s4, l5 + (s5 + (l6 + rest)));
    peel(s, q8, q9, n, l5, s5 + (l6 + rest));
    peel(s, q9, q10, n, s5, l6 + rest);
    peel(s, q10, q10 + l6.len(), n, l6, rest);
}

/// What a serialized content entry occupying `[i, j0)` pins down: the tag
/// literal, the payload object, and the closing brace.
proof fn lemma_content_at_parts(s: Seq<char>, i: int, j0: int, c: Content)
    requires
        content_at(s, i, j0, c),
    ensures
        ({
            match c {
                Content::Written(a) => {
                    let q1 = i + ("{\"Written\":")@.len();
                    let q2 = q1 + ser_authored(a).len();
                    &&& s.subrange(i, q1) == ("{\"Written\":")@
                    &&& authored_at(s, q1, q2, a)
                    &&& s.subrange(q2, j0) == ("}")@
                    &&& j0 == q2 + ("}")@.len()
                },
                Content::Comment(a) => {
                    let q1 = i + ("{\"Comment\":")@.len();
                    let q2 = q1 + ser_authored(a).len();
                    &&& s.subrange(i, q1) == ("{\"Comment\":")@
                    &&& authored_at(s, q1, q2, a)
                    &&& s.subrange(q2, j0) == ("}")@
                    &&& j0 == q2 + ("}")@.len()
                },
                Content::Generated(g) => {
                    let q1 = i + ("{\"Generated\":")@.len();
                    let q2 = q1 + ser_generated(g).len();
                    &&& s.subrange(i, q1) == ("{\"Generated\":")@
                    &&& generated_at(s, q1, q2, g)
                    &&& s.subrange(q2, j0) == ("}")@
                    &&& j0 == q2 + ("}")@.len()
                },
            }
        }),
{
    let n = s.len() as int;
    let rest = s.subrange(j0, n);
    assert(s.subrange(i, j0).len() == ser_content(c).len());
    assert(s.subrange(i, n) =~= s.subrange(i, j0) + rest);
    let lb = ("}")@;
    match c {
        Content::Written(a) => {
            let lw = ("{\"Written\":")@;
            let body = ser_authored(a);
            let q1 = i + lw.len();
            let q2 = q1 + body.len();
            lemma_shift(lw + body, lb, rest);
            lemma_shift(lw, body, lb + rest);
            assert(s.subrange(i, n) == lw + (body + (lb + rest)));
            peel(s, i, q1, n, lw, body + (lb + rest));
            peel(s, q1, q2, n, body, lb + rest);
            peel(s, q2, q2 + lb.len(), n, lb, rest);
        },
        Content::Comment(a) => {
            let lw = ("{\"Comment\":")@;
            let body = ser_authored(a);
            let q1 = i + lw.len();
            let q2 = q1 + body.len();
            lemma_shift(lw + body, lb, rest);
            lemma_shift(lw, body, lb + rest);
            assert(s.subrange(i, n) == lw + (body + (lb + rest)));
            peel(s, i, q1, n, lw, body + (lb + rest));
            peel(s, q1, q2, n, body, lb + rest);
            peel(s, q2, q2 + lb.len(), n, lb, rest);
        },
        Content::Generated(g) => {
            let lw = ("{\"Generated\":")@;
            let body = ser_generated(g);
            let q1 = i + lw.len();
            let q2 = q1 + body.len();
            lemma_shift(lw + body, lb, rest);
            lemma_shift(lw, body, lb + rest);
            assert(s.subrange(i, n) == lw + (body + (lb + rest)));
            peel(s, i, q1, n, lw, body + (lb + rest));
            peel(s, q1, q2, n, body, lb + rest);
            peel(s, q2, q2 + lb.len(), n, lb, rest);
        },
    }
}

/// The text of `s` between `i` and `j` is exactly one serialized content
/// array.
pub open spec fn carray_at(s: Seq<char>, i: int, j: int, cs: Seq<Content>) -> bool {
    0 <= i <= j <= s.len() && s.subrange(i, j) == ser_content_array(cs)
}

/// What a serialized content array occupying `[i, j0)` pins down: the
/// brackets and the item list between them.
proof fn lemma_carray_at_parts(s: Seq<char>, i: int, j0: int, cs: Seq<Content>)
    requires
        carray_at(s, i, j0, cs),
    ensures
        ({
            let q1 = i + ("[")@.len();
            let q2 = q1 + ser_content_items(cs).len();
            &&& s.subrange(i, q1) == ("[")@
            &&& s.subrange(q1, q2) == ser_content_items(cs)
            &&& s.subrange(q2, j0) == ("]")@
            &&& j0 == q2 + ("]")@.len()
        }),
{
    let lo = ("[")@;
    let lc = ("]")@;
    let body = ser_content_items(cs);
    let q1 = i + lo.len();
    let q2 = q1 + body.len();
    let n = s.len() as int;
    let rest = s.subrange(j0, n);
    assert(s.subrange(i, j0).len() == ser_content_array(cs).len());
    assert(s.subrange(i, n) =~= s.subrange(i, j0) + rest);
    lemma_shift(lo + body, lc, rest);
    lemma_shift(lo, body, lc + rest);
    assert(s.subrange(i, n) == lo + (body + (lc + rest)));
    peel(s, i, q1, n, lo, body + (lc + rest));
    peel(s, q1, q2, n, body, lc + rest);
    peel(s, q2, q2 + lc.len(), n, lc, rest);
}

/// A nonempty item list pinned to `[p, e)` puts its first entry at the
/// front, followed (when more remain) by a comma and the remaining list.
proof fn lemma_citems_front_at(s: Seq<char>, p: int, e: int, cs: Seq<Content>)
    requires
        0 <= p <= e <= s.len(),
        cs.len() >= 1,
        s.subrange(p, e) == ser_content_items(cs),
    ensures
        content_at(s, p, p + ser_content(cs[0]).len(), cs[0]),
        p + ser_content(cs[0]).len() <= e,
        cs.len() == 1 ==> e == p + ser_content(cs[0]).len(),
        cs.len() > 1 ==> s.subrange(p + ser_content(cs[0]).len(), e) == (",")@
            + ser_content_items(cs.subrange(1, cs.len() as int)),
{
    reveal_strlit(",");
    let c0 = ser_content(cs[0]);
    if cs.len() == 1 {
        assert(ser_content_items(cs) == ser_content(cs[0]));
        assert(e - p == c0.len());
        assert(content_at(s, p, p + c0.len(), cs[0]));
    } else {
        crate::laws::lemma_content_items_front(cs);
        assert(cs.first() == cs[0]);
        assert(cs.drop_first() =~= cs.subrange(1, cs.len() as int));
        let tail = ser_content_items(cs.subrange(1, cs.len() as int));
        assert(ser_content_items(cs) == ser_content(cs.first()) + (",")@ + ser_content_items(
            cs.drop_first(),
        ));
        assert(ser_content_items(cs) == (c0 + (",")@) + tail);
        assert(s.subrange(p, e).len() == e - p);
        assert(((c0 + (",")@) + tail).len() == c0.len() + 1 + tail.len());
        assert(e - p == c0.len() + 1 + tail.len());
        lemma_shift(c0, (",")@, tail);
        assert(s.subrange(p, e) == c0 + ((",")@ + tail));
        peel(s, p, p + c0.len(), e, c0, (",")@ + tail);
        assert(content_at(s, p, p + c0.len(), cs[0]));
    }
}

/// The text of `s` between `i` and `j` is exactly one serialized node.
pub open spec fn node_at(s: Seq<char>, i: int, j: int, x: NodeSnapshot) -> bool {
    0 <= i <= j <= s.len() && s.subrange(i, j) == ser_node(x)
}

/// The text of `s` between `i` and `j` is exactly one serialized metadata
/// object.
pub open spec fn meta_at(s: Seq<char>, i: int, j: int, m: SharedMetadata) -> bool {
    0 <= i <= j <= s.len() && s.subrange(i, j) == ser_meta(m)
}

/// Two serialized nodes starting at the same position end at the same
/// position.
proof fn align_node(s: Seq<char>, p: int, p2: int, q2: int, a: NodeSnapshot, b: NodeSnapshot)
    requires
        0 <= p <= p2 <= s.len(),
        p <= q2 <= s.len(),
        s.subrange(p, p2) == ser_node(a),
        s.subrange(p, q2) == ser_node(b),
    ensures
        p2 == q2,
{
    let n = s.len() as int;
    assert(s.subrange(p, n) =~= s.subrange(p, p2) + s.subrange(p2, n));
    assert(s.subrange(p, n) =~= s.subrange(p, q2) + s.subrange(q2, n));
    crate::laws::lemma_ser_node_prefix(a, b, s.subrange(p2, n), s.subrange(q2, n));
    assert(s.subrange(p2, n).len() == n - p2);
    assert(s.subrange(q2, n).len() == n - q2);
}

/// Two serialized content arrays starting at the same position end at the
/// same position.
proof fn align_carray(s: Seq<char>, p: int, p2: int, q2: int, a: Seq<Content>, b: Seq<Content>)
    requires
        0 <= p <= p2 <= s.len(),
        p <= q2 <= s.len(),
        s.subrange(p, p2) == ser_content_array(a),
        s.subrange(p, q2) == ser_content_array(b),
    ensures
        p2 == q2,
{
    let n = s.len() as int;
    assert(s.subrange(p, n) =~= s.subrange(p, p2) + s.subrange(p2, n));
    assert(s.subrange(p, n) =~= s.subrange(p, q2) + s.subrange(q2, n));
    crate::laws::lemma_content_array_prefix(a, b, s.subrange(p2, n), s.subrange(q2, n));
    assert(s.subrange(p2, n).len() == n - p2);
    assert(s.subrange(q2, n).len() == n - q2);
}

/// Two serialized metadata objects starting at the same position end at
/// the same position.
proof fn align_meta(s: Seq<char>, p: int, p2: int, q2: int, a: SharedMetadata, b: SharedMetadata)
    requires
        0 <= p <= p2 <= s.len(),
        p <= q2 <= s.len(),
        s.subrange(p, p2) == ser_meta(a),
        s.subrange(p, q2) == ser_meta(b),
    ensures
        p2 == q2,
{
    let n = s.len() as int;
    assert(s.subrange(p, n) =~= s.subrange(p, p2) + s.subrange(p2, n));
    assert(s.subrange(p, n) =~= s.subrange(p, q2) + s.subrange(q2, n));
    crate::laws::lemma_ser_meta_prefix(a, b, s.subrange(p2, n), s.subrange(q2, n));
    assert(s.subrange(p2, n).len() == n - p2);
    assert(s.subrange(q2, n).len() == n - q2);
}

/// What a serialized node occupying `[i, j0)` pins down: each bracketed
/// region in its place.
proof fn lemma_node_at_parts(s: Seq<char>, i: int, j0: int, x: NodeSnapshot)
    requires
        node_at(s, i, j0, x),
    ensures
        ({
            let q1 = i + ("{\"contents\":")@.len();
            let q2 = q1 + ser_content_array(x.contents@).len();
            let q3 = q2 + (",\"children\":")@.len();
            let q4 = q3 + ("[")@.len();
            let q5 = q4 + ser_node_items(x.children@).len();
            let q6 = q5 + ("]")@.len();
            &&& s.subrange(i, q1) == ("{\"contents\":")@
            &&& carray_at(s, q1, q2, x.contents@)
            &&& s.subrange(q2, q3) == (",\"children\":")@
            &&& s.subrange(q3, q4) == ("[")@
            &&& s.subrange(q4, q5) == ser_node_items(x.children@)
            &&& s.subrange(q5, q6) == ("]")@
            &&& s.subrange(q6, j0) == ("}")@
            &&& j0 == q6 + ("}")@.len()
        }),
{
    let l1 = ("{\"contents\":")@;
    let l2 = (",\"children\":")@;
    let lo = ("[")@;
    let lc = ("]")@;
    let lb = ("}")@;
    let ca = ser_content_array(x.contents@);
    let it = ser_node_items(x.children@);
    let q1 = i + l1.len();
    let q2 = q1 + ca.len();
    let q3 = q2 + l2.len();
    let q4 = q3 + lo.len();
    let q5 = q4 + it.len();
    let q6 = q5 + lc.len();
    let n = s.len() as int;
    let rest = s.subrange(j0, n);
    assert(s.subrange(i, j0).len() == ser_node(x).len());
    assert(s.subrange(i, n) =~= s.subrange(i, j0) + rest);
    lemma_shift(l1 + ca + l2 + lo + it + lc, lb, rest);
    lemma_shift(l1 + ca + l2 + lo + it, lc, lb + rest);
    lemma_shift(l1 + ca + l2 + lo, it, lc + (lb + rest));
    lemma_shift(l1 + ca + l2, lo, it + (lc + (lb + rest)));
    lemma_shift(l1 + ca, l2, lo + (it + (lc + (lb + rest))));
    lemma_shift(l1, ca, l2 + (lo + (it + (lc + (lb + rest)))));
    assert(s.subrange(i, n) == l1 + (ca + (l2 + (lo + (it + (lc + (lb + rest)))))));
    peel(s, i, q1, n, l1, ca + (l2 + (lo + (it + (lc + (lb + rest))))));
    peel(s, q1, q2, n, ca, l2 + (lo + (it + (lc + (lb + rest)))));
    peel(s, q2, q3, n, l2, lo + (it + (lc + (lb + rest))));
    peel(s, q3, q4, n, lo, it + (lc + (lb + rest)));
    peel(s, q4, q5, n, it, lc + (lb + rest));
    peel(s, q5, q6, n, lc, lb + rest);
    peel(s, q6, q6 + lb.len(), n, lb, rest);
}

/// A nonempty node list pinned to `[p, e)` puts its first node at the
/// front, followed (when more remain) by a comma and the remaining list.
proof fn lemma_nitems_front_at(s: Seq<char>, p: int, e: int, ns: Seq<NodeSnapshot>)
    requires
        0 <= p <= e <= s.len(),
        ns.len() >= 1,
        s.subrange(p, e) == ser_node_items(ns),
    ensures
        node_at(s, p, p + ser_node(ns[0]).len(), ns[0]),
        p + ser_node(ns[0]).len() <= e,
        ns.len() == 1 ==> e == p + ser_node(ns[0]).len(),
        ns.len() > 1 ==> s.subrange(p + ser_node(ns[0]).len(), e) == (",")@ + ser_node_items(
            ns.subrange(1, ns.len() as int),
        ),
{
    reveal_strlit(",");
    let c0 = ser_node(ns[0]);
    if ns.len() == 1 {
        assert(ser_node_items(ns) == ser_node(ns[0]));
        assert(e - p == c0.len());
        assert(node_at(s, p, p + c0.len(), ns[0]));
    } else {
        crate::laws::lemma_node_items_front(ns);
        assert(ns.first() == ns[0]);
        assert(ns.drop_first() =~= ns.subrange(1, ns.len() as int));
        let tail = ser_node_items(ns.subrange(1, ns.len() as int));
        assert(ser_node_items(ns) == ser_node(ns.first()) + (",")@ + ser_node_items(
            ns.drop_first(),
        ));
        assert(ser_node_items(ns) == (c0 + (",")@) + tail);
        assert(s.subrange(p, e).len() == e - p);
        assert(((c0 + (",")@) + tail).len() == c0.len() + 1 + tail.len());
        assert(e - p == c0.len() + 1 + tail.len());
        lemma_shift(c0, (",")@, tail);
        assert(s.subrange(p, e) == c0 + ((",")@ + tail));
        peel(s, p, p + c0.len(), e, c0, (",")@ + tail);
        assert(node_at(s, p, p + c0.len(), ns[0]));
    }
}

/// What a serialized metadata object occupying `[i, j0)` pins down.
proof fn lemma_meta_at_parts(s: Seq<char>, i: int, j0: int, m: SharedMetadata)
    requires
        meta_at(s, i, j0, m),
    ensures
        ({
            let q1 = i + ("{\"labels\":{")@.len();
            let q2 = q1 + ser_label_items(m.entries()).len();
            &&& s.subrange(i, q1) == ("{\"labels\":{")@
            &&& s.subrange(q1, q2) == ser_label_items(m.entries())
            &&& s.subrange(q2, j0) == ("}}")@
            &&& j0 == q2 + ("}}")@.len()
        }),
{
    let lm = ("{\"labels\":{")@;
    let lc = ("}}")@;
    let body = ser_label_items(m.entries());
    let q1 = i + lm.len();
    let q2 = q1 + body.len();
    let n = s.len() as int;
    let rest = s.subrange(j0, n);
    assert(s.subrange(i, j0).len() == ser_meta(m).len());
    assert(s.subrange(i, n) =~= s.subrange(i, j0) + rest);
    lemma_shift(lm + body, lc, rest);
    lemma_shift(lm, body, lc + rest);
    assert(s.subrange(i, n) == lm + (body + (lc + rest)));
    peel(s, i, q1, n, lm, body + (lc + rest));
    peel(s, q1, q2, n, body, lc + rest);
    peel(s, q2, q2 + lc.len(), n, lc, rest);
}

/// A nonempty label list pinned to `[p, e)` puts its first member at the
/// front: key, colon, name, and (when more remain) a comma and the rest.
proof fn lemma_litems_front_at(s: Seq<char>, p: int, e: int, ls: Seq<(String, String)>)
    requires
        0 <= p <= e <= s.len(),
        ls.len() >= 1,
        s.subrange(p, e) == ser_label_items(ls),
    ensures
        ({
            let pk = p + ser_str(ls[0].0@).len();
            let pc = pk + (":")@.len();
            let pv = pc + ser_str(ls[0].1@).len();
            &&& str_at(s, p, pk, ls[0].0@)
            &&& s.subrange(pk, pc) == (":")@
            &&& str_at(s, pc, pv, ls[0].1@)
            &&& pv <= e
            &&& (ls.len() == 1 ==> e == pv)
            &&& (ls.len() > 1 ==> s.subrange(pv, e) == (",")@ + ser_label_items(
                ls.subrange(1, ls.len() as int),
            ))
        }),
{
    reveal_strlit(",");
    let sk = ser_str(ls[0].0@);
    let sv = ser_str(ls[0].1@);
    let lco = (":")@;
    let pk = p + sk.len();
    let pc = pk + lco.len();
    let pv = pc + sv.len();
    if ls.len() == 1 {
        assert(ser_label_items(ls) == (sk + lco) + sv);
        assert(e - p == sk.len() + lco.len() + sv.len());
        lemma_shift(sk, lco, sv);
        assert(s.subrange(p, e) == sk + (lco + sv));
        peel(s, p, pk, e, sk, lco + sv);
        peel(s, pk, pc, e, lco, sv);
        assert(sv + Seq::<char>::empty() =~= sv);
        peel(s, pc, pv, e, sv, Seq::<char>::empty());
    } else {
        crate::laws::lemma_label_items_front(ls);
        assert(ls.first() == ls[0]);
        assert(ls.drop_first() =~= ls.subrange(1, ls.len() as int));
        let tail = ser_label_items(ls.subrange(1, ls.len() as int));
        assert(ser_label_items(ls) == ser_str(ls.first().0@) + (":")@ + ser_str(ls.first().1@)
            + (",")@ + ser_label_items(ls.drop_first()));
        assert(ser_label_items(ls) == (((sk + lco) + sv) + (",")@) + tail);
        assert(s.subrange(p, e).len() == e - p);
        assert(e - p == sk.len() + lco.len() + sv.len() + 1 + tail.len());
        lemma_shift((sk + lco) + sv, (",")@, tail);
        lemma_shift(sk + lco, sv, (",")@ + tail);
        lemma_shift(sk, lco, sv + ((",")@ + tail));
        assert(s.subrange(p, e) == sk + (lco + (sv + ((",")@ + tail))));
        peel(s, p, pk, e, sk, lco + (sv + ((",")@ + tail)));
        peel(s, pk, pc, e, lco, sv + ((",")@ + tail));
        peel(s, pc, pv, e, sv, (",")@ + tail);
    }
}

/// Consumes the exact literal `lit` at position `i`, if present: exactly
/// when the text at `i` is long enough and spells `lit`.
fn expect_lit(s: &str, i: usize, lit: &str) -> (r: Option<usize>)
    requires
        i <= s@.len(),
    ensures
        r matches Some(j) ==> i + lit@.len() == j && j <= s@.len() && s@.subrange(
            i as int,
            j as int,
        ) == lit@,
        i + lit@.len() <= s@.len() && s@.subrange(i as int, i + lit@.len()) == lit@ ==> r
            is Some,
{
    let n = s.unicode_len();
    let l = lit.unicode_len();
    if n - i < l {
        return None;
    }
    let sub = s.substring_char(i, i + l);
    if str_eq(sub, lit) {
        Some(i + l)
    } else {
        None
    }
}

/// Parses one JSON string literal starting at `i`. On success the consumed
/// text is exactly [`ser_str`] of the returned string.
fn parse_str(s: &str, i: usize) -> (r: Option<(String, usize)>)
    requires
        i <= s@.len(),
    ensures
        r matches Some(p) ==> i < p.1 <= s@.len() && s@.subrange(i as int, p.1 as int) == ser_str(
            p.0@,
        ),
        forall|v0: Seq<char>, j0: int| #[trigger] str_at(s@, i as int, j0, v0) ==> r is Some,
{
    let n = s.unicode_len();
    if i >= n {
        proof {
            assert forall|v0: Seq<char>, j0: int| str_at(s@, i as int, j0, v0) implies false by {
                lemma_str_at_parts(s@, i as int, j0, v0);
            }
        }
        return None;
    }
    if s.get_char(i) != '"' {
        proof {
            assert forall|v0: Seq<char>, j0: int| str_at(s@, i as int, j0, v0) implies false by {
                lemma_str_at_parts(s@, i as int, j0, v0);
            }
        }
        return None;
    }
    let mut v = String::new();
    let mut j: usize = i + 1;
    proof {
        assert forall|v0: Seq<char>, j0: int| str_at(s@, i as int, j0, v0) implies j <= j0 - 1 && (
        exists|w: Seq<char>| v0 == v@ + w && s@.subrange(j as int, j0 - 1) == esc(w)) by {
            lemma_str_at_parts(s@, i as int, j0, v0);
            assert(v0 == v@ + v0) by {
                assert(v@ + v0 =~= v0);
            }
            assert(s@.subrange(j as int, j0 - 1) == esc(v0));
        }
    }
    while j < n
        invariant
            i + 1 <= j <= n,
            n == s@.len(),
            s@[i as int] == '"',
            esc(v@) == s@.subrange(i as int + 1, j as int),
            forall|v0: Seq<char>, j0: int| #[trigger] str_at(s@, i as int, j0, v0) ==> j <= j0 - 1
                && (exists|w: Seq<char>| v0 == v@ + w && s@.subrange(j as int, j0 - 1) == esc(w)),
        decreases n - j,
    {
        let c = s.get_char(j);
        if c == '"' {
            proof {
                assert(s@.subrange(i as int, j as int + 1) =~= ser_str(v@));
            }
            return Some((v, j + 1));
        } else if c == '\\' {
            if j + 1 >= n {
                proof {
                    assert forall|v0: Seq<char>, j0: int| str_at(s@, i as int, j0, v0) implies
                        false by {
                        lemma_str_at_parts(s@, i as int, j0, v0);
                        let w = choose|w: Seq<char>|
                            v0 == v@ + w && s@.subrange(j as int, j0 - 1) == esc(w);
                        if w.len() == 0 {
                            assert(esc(w) =~= Seq::<char>::empty());
                            assert(j as int == j0 - 1);
                        } else {
                            lemma_esc_front(w);
                            let w0 = w.first();
                            if w0 == '"' || w0 == '\\' {
                                assert(esc(w).len() >= 2);
                                assert(j0 - 1 - j >= 2);
                            } else {
                                assert(s@.subrange(j as int, j0 - 1)[0] == w0);
                                assert(s@[j as int] == w0);
                            }
                        }
                    }
                }
                return None;
            }
            let c2 = s.get_char(j + 1);
            if c2 == '"' || c2 == '\\' {
                let ghost prev = v@;
                push_char(&mut v, c2);
                proof {
                    assert(v@.drop_last() =~= prev);
                    assert(esc(v@) == esc(prev) + esc_char(c2));
                    assert(esc(v@) =~= s@.subrange(i as int + 1, j as int + 2));
                    assert forall|v0: Seq<char>, j0: int| str_at(s@, i as int, j0, v0) implies j + 2
                        <= j0 - 1 && (exists|ww: Seq<char>|
                        v0 == v@ + ww && s@.subrange(j as int + 2, j0 - 1) == esc(ww)) by {
                        lemma_str_at_parts(s@, i as int, j0, v0);
                        let w = choose|w: Seq<char>|
                            v0 == prev + w && s@.subrange(j as int, j0 - 1) == esc(w);
                        if w.len() == 0 {
                            assert(esc(w) =~= Seq::<char>::empty());
                            assert(j as int == j0 - 1);
                            assert(false);
                        }
                        lemma_esc_front(w);
                        let w0 = w.first();
                        if w0 == '"' || w0 == '\\' {
                            assert(esc(w) == seq!['\\', w0] + esc(w.drop_first()));
                            assert(s@.subrange(j as int, j0 - 1)[1] == w0);
                            assert(s@[j as int + 1] == w0);
                            assert(c2 == w0);
                            assert(v@ == prev + seq![c2]) by {
                                assert(prev.push(c2) =~= prev + seq![c2]);
                            }
                            assert(v0 == v@ + w.drop_first()) by {
                                assert(prev + w =~= (prev + seq![w0]) + w.drop_first());
                            }
                            assert(s@.subrange(j as int + 2, j0 - 1) == esc(w.drop_first())) by {
                                assert((seq!['\\', w0] + esc(w.drop_first())).subrange(
                                    2,
                                    (seq!['\\', w0] + esc(w.drop_first())).len() as int,
                                ) =~= esc(w.drop_first()));
                                assert(s@.subrange(j as int + 2, j0 - 1) =~= s@.subrange(
                                    j as int,
                                    j0 - 1,
                                ).subrange(2, j0 - 1 - j as int));
                            }
                            assert(j + 2 <= j0 - 1);
                            assert(exists|ww: Seq<char>|
                                v0 == v@ + ww && s@.subrange(j as int + 2, j0 - 1) == esc(ww));
                        } else {
                            assert(s@.subrange(j as int, j0 - 1)[0] == w0);
                            assert(s@[j as int] == w0);
                            assert(false);
                        }
                    }
                }
                j = j + 2;
            } else {
                proof {
                    assert forall|v0: Seq<char>, j0: int| str_at(s@, i as int, j0, v0) implies
                        false by {
                        lemma_str_at_parts(s@, i as int, j0, v0);
                        let w = choose|w: Seq<char>|
                            v0 == v@ + w && s@.subrange(j as int, j0 - 1) == esc(w);
                        if w.len() == 0 {
                            assert(esc(w) =~= Seq::<char>::empty());
                            assert(j as int == j0 - 1);
                        } else {
                            lemma_esc_front(w);
                            let w0 = w.first();
                            if w0 == '"' || w0 == '\\' {
                                assert(esc(w) == seq!['\\', w0] + esc(w.drop_first()));
                                assert(s@.subrange(j as int, j0 - 1)[1] == w0);
                                assert(s@[j as int + 1] == w0);
                            } else {
                                assert(s@.subrange(j as int, j0 - 1)[0] == w0);
                                assert(s@[j as int] == w0);
                            }
                        }
                    }
                }
                return None;
            }
        } else {
            let ghost prev = v@;
            push_char(&mut v, c);
            proof {
                assert(v@.drop_last() =~= prev);
                assert(esc(v@) == esc(prev) + esc_char(c));
                assert(esc(v@) =~= s@.subrange(i as int + 1, j as int + 1));
                assert forall|v0: Seq<char>, j0: int| str_at(s@, i as int, j0, v0) implies j + 1
                    <= j0 - 1 && (exists|ww: Seq<char>|
                    v0 == v@ + ww && s@.subrange(j as int + 1, j0 - 1) == esc(ww)) by {
                    lemma_str_at_parts(s@, i as int, j0, v0);
                    let w = choose|w: Seq<char>|
                        v0 == prev + w && s@.subrange(j as int, j0 - 1) == esc(w);
                    if w.len() == 0 {
                        assert(esc(w) =~= Seq::<char>::empty());
                        assert(j as int == j0 - 1);
                        assert(false);
                    }
                    lemma_esc_front(w);
                    let w0 = w.first();
                    if w0 == '"' || w0 == '\\' {
                        assert(esc(w) == seq!['\\', w0] + esc(w.drop_first()));
                        assert(s@.subrange(j as int, j0 - 1)[0] == '\\');
                        assert(s@[j as int] == '\\');
                        assert(false);
                    }
                    assert(esc(w) == seq![w0] + esc(w.drop_first()));
                    assert(s@.subrange(j as int, j0 - 1)[0] == w0);
                    assert(s@[j as int] == w0);
                    assert(c == w0);
                    assert(v@ == prev + seq![c]) by {
                        assert(prev.push(c) =~= prev + seq![c]);
                    }
                    assert(v0 == v@ + w.drop_first()) by {
                        assert(prev + w =~= (prev + seq![w0]) + w.drop_first());
                    }
                    assert(s@.subrange(j as int + 1, j0 - 1) == esc(w.drop_first())) by {
                        assert((seq![w0] + esc(w.drop_first())).subrange(
                            1,
                            (seq![w0] + esc(w.drop_first())).len() as int,
                        ) =~= esc(w.drop_first()));
                        assert(s@.subrange(j as int + 1, j0 - 1) =~= s@.subrange(
                            j as int,
                            j0 - 1,
                        ).subrange(1, j0 - 1 - j as int));
                    }
                    assert(exists|ww: Seq<char>|
                        v0 == v@ + ww && s@.subrange(j as int + 1, j0 - 1) == esc(ww));
                }
            }
            j = j + 1;
        }
    }
    proof {
        assert forall|v0: Seq<char>, j0: int| str_at(s@, i as int, j0, v0) implies false by {
            lemma_str_at_parts(s@, i as int, j0, v0);
        }
    }
    None
}

/// Parses one authored entry object starting at `i`.
fn parse_authored(s: &str, i: usize) -> (r: Option<(Authored, usize)>)
    requires
        i <= s@.len(),
    ensures
        r matches Some(p) ==> i < p.1 <= s@.len() && s@.subrange(i as int, p.1 as int)
            == ser_authored(p.0),
        forall|a0: Authored, j0: int| #[trigger] authored_at(s@, i as int, j0, a0) ==> r is Some,
{
    let i1 = match expect_lit(s, i, "{\"author\":") {
        Some(j) => j,
        None => {
            proof {
                assert forall|a0: Authored, j0: int| authored_at(s@, i as int, j0, a0)
                    implies false by {
                    lemma_authored_at_parts(s@, i as int, j0, a0);
                    let q1 = i as int + ("{\"author\":")@.len();
                    let q2 = q1 + ser_str(a0.author@).len();
                    let q3 = q2 + (",\"modified\":")@.len();
                    let q4 = q3 + ser_str(a0.modified@).len();
                    let q5 = q4 + (",\"content\":")@.len();
                    let q6 = q5 + ser_str(a0.content@).len();
                }
            }
            return None;
        },
    };
    let (author, i2) = match parse_str(s, i1) {
        Some(p) => p,
        None => {
            proof {
                assert forall|a0: Authored, j0: int| authored_at(s@, i as int, j0, a0)
                    implies false by {
                    lemma_authored_at_parts(s@, i as int, j0, a0);
                    let q1 = i as int + ("{\"author\":")@.len();
                    let q2 = q1 + ser_str(a0.author@).len();
                    let q3 = q2 + (",\"modified\":")@.len();
                    let q4 = q3 + ser_str(a0.modified@).len();
                    let q5 = q4 + (",\"content\":")@.len();
                    let q6 = q5 + ser_str(a0.content@).len();
                    assert(i1 as int == q1);
                    assert(str_at(s@, i1 as int, q2, a0.author@));
                }
            }
            return None;
        },
    };
    let i3 = match expect_lit(s, i2, ",\"modified\":") {
        Some(j) => j,
        None => {
            proof {
                assert forall|a0: Authored, j0: int| authored_at(s@, i as int, j0, a0)
                    implies false by {
                    lemma_authored_at_parts(s@, i as int, j0, a0);
                    let q1 = i as int + ("{\"author\":")@.len();
                    let q2 = q1 + ser_str(a0.author@).len();
                    let q3 = q2 + (",\"modified\":")@.len();
                    let q4 = q3 + ser_str(a0.modified@).len();
                    let q5 = q4 + (",\"content\":")@.len();
                    let q6 = q5 + ser_str(a0.content@).len();
                    assert(i1 as int == q1);
                    align_str(s@, i1 as int, i2 as int, q2, author@, a0.author@);
                }
            }
            return None;
        },
    };
    let (modified, i4) = match parse_str(s, i3) {
        Some(p) => p,
        None => {
            proof {
                assert forall|a0: Authored, j0: int| authored_at(s@, i as int, j0, a0)
                    implies false by {
                    lemma_authored_at_parts(s@, i as int, j0, a0);
                    let q1 = i as int + ("{\"author\":")@.len();
                    let q2 = q1 + ser_str(a0.author@).len();
                    let q3 = q2 + (",\"modified\":")@.len();
                    let q4 = q3 + ser_str(a0.modified@).len();
                    let q5 = q4 + (",\"content\":")@.len();
                    let q6 = q5 + ser_str(a0.content@).len();
                    assert(i1 as int == q1);
                    align_str(s@, i1 as int, i2 as int, q2, author@, a0.author@);
                    assert(i3 as int == q3);
                    assert(str_at(s@, i3 as int, q4, a0.modified@));
                }
            }
            return None;
        },
    };
    let i5 = match expect_lit(s, i4, ",\"content\":") {
        Some(j) => j,
        None => {
            proof {
                assert forall|a0: Authored, j0: int| authored_at(s@, i as int, j0, a0)
                    implies false by {
                    lemma_authored_at_parts(s@, i as int, j0, a0);
                    let q1 = i as int + ("{\"author\":")@.len();
                    let q2 = q1 + ser_str(a0.author@).len();
                    let q3 = q2 + (",\"modified\":")@.len();
                    let q4 = q3 + ser_str(a0.modified@).len();
                    let q5 = q4 + (",\"content\":")@.len();
                    let q6 = q5 + ser_str(a0.content@).len();
                    assert(i1 as int == q1);
                    align_str(s@, i1 as int, i2 as int, q2, author@, a0.author@);
                    assert(i3 as int == q3);
                    align_str(s@, i3 as int, i4 as int, q4, modified@, a0.modified@);
                }
            }
            return None;
        },
    };
    let (content, i6) = match parse_str(s, i5) {
        Some(p) => p,
        None => {
            proof {
                assert forall|a0: Authored, j0: int| authored_at(s@, i as int, j0, a0)
                    implies false by {
                    lemma_authored_at_parts(s@, i as int, j0, a0);
                    let q1 = i as int + ("{\"author\":")@.len();
                    let q2 = q1 + ser_str(a0.author@).len();
                    let q3 = q2 + (",\"modified\":")@.len();
                    let q4 = q3 + ser_str(a0.modified@).len();
                    let q5 = q4 + (",\"content\":")@.len();
                    let q6 = q5 + ser_str(a0.content@).len();
                    assert(i1 as int == q1);
                    align_str(s@, i1 as int, i2 as int, q2, author@, a0.author@);
                    assert(i3 as int == q3);
                    align_str(s@, i3 as int, i4 as int, q4, modified@, a0.modified@);
                    assert(i5 as int == q5);
                    assert(str_at(s@, i5 as int, q6, a0.content@));
                }
            }
            return None;
        },
    };
    let i7 = match expect_lit(s, i6, "}") {
        Some(j) => j,
        None => {
            proof {
                assert forall|a0: Authored, j0: int| authored_at(s@, i as int, j0, a0)
                    implies false by {
                    lemma_authored_at_parts(s@, i as int, j0, a0);
                    let q1 = i as int + ("{\"author\":")@.len();
                    let q2 = q1 + ser_str(a0.author@).len();
                    let q3 = q2 + (",\"modified\":")@.len();
                    let q4 = q3 + ser_str(a0.modified@).len();
                    let q5 = q4 + (",\"content\":")@.len();
                    let q6 = q5 + ser_str(a0.content@).len();
                    assert(i1 as int == q1);
                    align_str(s@, i1 as int, i2 as int, q2, author@, a0.author@);
                    assert(i3 as int == q3);
                    align_str(s@, i3 as int, i4 as int, q4, modified@, a0.modified@);
                    assert(i5 as int == q5);
                    align_str(s@, i5 as int, i6 as int, q6, content@, a0.content@);
                }
            }
            return None;
        },
    };
    let a = Authored { author, modified, content };
    proof {
        assert(s@.subrange(i as int, i7 as int) =~= ser_authored(a));
    }
    Some((a, i7))
}

/// Parses one generation record object starting at `i`.
#[verifier::rlimit(100)]
fn parse_generated(s: &str, i: usize) -> (r: Option<(Generated, usize)>)
    requires
        i <= s@.len(),
    ensures
        r matches Some(p) ==> i < p.1 <= s@.len() && s@.subrange(i as int, p.1 as int)
            == ser_generated(p.0),
        forall|g0: Generated, j0: int| #[trigger] generated_at(s@, i as int, j0, g0) ==> r
            is Some,
{
    let i1 = match expect_lit(s, i, "{\"generator\":") {
        Some(j) => j,
        None => {
            proof {
                assert forall|g0: Generated, j0: int| generated_at(s@, i as int, j0, g0)
                    implies false by {
                    lemma_generated_at_parts(s@, i as int, j0, g0);
                    let q1 = i as int + ("{\"generator\":")@.len();
                    let q2 = q1 + ser_str(g0.generator@).len();
                    let q3 = q2 + (",\"start\":")@.len();
                    let q4 = q3 + ser_str(g0.start@).len();
                    let q5 = q4 + (",\"finish\":")@.len();
                    let q6 = q5 + ser_str(g0.finish@).len();
                    let q7 = q6 + (",\"config\":")@.len();
                    let q8 = q7 + ser_str(g0.config@).len();
                    let q9 = q8 + (",\"output\":")@.len();
                    let q10 = q9 + ser_str(g0.output@).len();
                }
            }
            return None;
        },
    };
    let (generator, i2) = match parse_str(s, i1) {
        Some(p) => p,
        None => {
            proof {
                assert forall|g0: Generated, j0: int| generated_at(s@, i as int, j0, g0)
                    implies false by {
                    lemma_generated_at_parts(s@, i as int, j0, g0);
                    let q1 = i as int + ("{\"generator\":")@.len();
                    let q2 = q1 + ser_str(g0.generator@).len();
                    let q3 = q2 + (",\"start\":")@.len();
                    let q4 = q3 + ser_str(g0.start@).len();
                    let q5 = q4 + (",\"finish\":")@.len();
                    let q6 = q5 + ser_str(g0.finish@).len();
                    let q7 = q6 + (",\"config\":")@.len();
                    let q8 = q7 + ser_str(g0.config@).len();
                    let q9 = q8 + (",\"output\":")@.len();
                    let q10 = q9 + ser_str(g0.output@).len();
                    assert(i1 as int == q1);
                    assert(str_at(s@, i1 as int, q2, g0.generator@));
                }
            }
            return None;
        },
    };
    let i3 = match expect_lit(s, i2, ",\"start\":") {
        Some(j) => j,
        None => {
            proof {
                assert forall|g0: Generated, j0: int| generated_at(s@, i as int, j0, g0)
                    implies false by {
                    lemma_generated_at_parts(s@, i as int, j0, g0);
                    let q1 = i as int + ("{\"generator\":")@.len();
                    let q2 = q1 + ser_str(g0.generator@).len();
                    let q3 = q2 + (",\"start\":")@.len();
                    let q4 = q3 + ser_str(g0.start@).len();
                    let q5 = q4 + (",\"finish\":")@.len();
                    let q6 = q5 + ser_str(g0.finish@).len();
                    let q7 = q6 + (",\"config\":")@.len();
                    let q8 = q7 + ser_str(g0.config@).len();
                    let q9 = q8 + (",\"output\":")@.len();
                    let q10 = q9 + ser_str(g0.output@).len();
                    assert(i1 as int == q1);
                    align_str(s@, i1 as int, i2 as int, q2, generator@, g0.generator@);
                }
            }
            return None;
        },
    };
    let (start, i4) = match parse_str(s, i3) {
        Some(p) => p,
        None => {
            proof {
                assert forall|g0: Generated, j0: int| generated_at(s@, i as int, j0, g0)
                    implies false by {
                    lemma_generated_at_parts(s@, i as int, j0, g0);
                    let q1 = i as int + ("{\"generator\":")@.len();
                    let q2 = q1 + ser_str(g0.generator@).len();
                    let q3 = q2 + (",\"start\":")@.len();
                    let q4 = q3 + ser_str(g0.start@).len();
                    let q5 = q4 + (",\"finish\":")@.len();
                    let q6 = q5 + ser_str(g0.finish@).len();
                    let q7 = q6 + (",\"config\":")@.len();
                    let q8 = q7 + ser_str(g0.config@).len();
                    let q9 = q8 + (",\"output\":")@.len();
                    let q10 = q9 + ser_str(g0.output@).len();
                    assert(i1 as int == q1);
                    align_str(s@, i1 as int, i2 as int, q2, generator@, g0.generator@);
                    assert(i3 as int == q3);
                    assert(str_at(s@, i3 as int, q4, g0.start@));
                }
            }
            return None;
        },
    };
    let i5 = match expect_lit(s, i4, ",\"finish\":") {
        Some(j) => j,
        None => {
            proof {
                assert forall|g0: Generated, j0: int| generated_at(s@, i as int, j0, g0)
                    implies false by {
                    lemma_generated_at_parts(s@, i as int, j0, g0);
                    let q1 = i as int + ("{\"generator\":")@.len();
                    let q2 = q1 + ser_str(g0.generator@).len();
                    let q3 = q2 + (",\"start\":")@.len();
                    let q4 = q3 + ser_str(g0.start@).len();
                    let q5 = q4 + (",\"finish\":")@.len();
                    let q6 = q5 + ser_str(g0.finish@).len();
                    let q7 = q6 + (",\"config\":")@.len();
                    let q8 = q7 + ser_str(g0.config@).len();
                    let q9 = q8 + (",\"output\":")@.len();
                    let q10 = q9 + ser_str(g0.output@).len();
                    assert(i1 as int == q1);
                    align_str(s@, i1 as int, i2 as int, q2, generator@, g0.generator@);
                    assert(i3 as int == q3);
                    align_str(s@, i3 as int, i4 as int, q4, start@, g0.start@);
                }
            }
            return None;
        },
    };
    let (finish, i6) = match parse_str(s, i5) {
        Some(p) => p,
        None => {
            proof {
                assert forall|g0: Generated, j0: int| generated_at(s@, i as int, j0, g0)
                    implies false by {
                    lemma_generated_at_parts(s@, i as int, j0, g0);
                    let q1 = i as int + ("{\"generator\":")@.len();
                    let q2 = q1 + ser_str(g0.generator@).len();
                    let q3 = q2 + (",\"start\":")@.len();
                    let q4 = q3 + ser_str(g0.start@).len();
                    let q5 = q4 + (",\"finish\":")@.len();
                    let q6 = q5 + ser_str(g0.finish@).len();
                    let q7 = q6 + (",\"config\":")@.len();
                    let q8 = q7 + ser_str(g0.config@).len();
                    let q9 = q8 + (",\"output\":")@.len();
                    let q10 = q9 + ser_str(g0.output@).len();
                    assert(i1 as int == q1);
                    align_str(s@, i1 as int, i2 as int, q2, generator@, g0.generator@);
                    assert(i3 as int == q3);
                    align_str(s@, i3 as int, i4 as int, q4, start@, g0.start@);
                    assert(i5 as int == q5);
                    assert(str_at(s@, i5 as int, q6, g0.finish@));
                }
            }
            return None;
        },
    };
    let i7 = match expect_lit(s, i6, ",\"config\":") {
        Some(j) => j,
        None => {
            proof {
                assert forall|g0: Generated, j0: int| generated_at(s@, i as int, j0, g0)
                    implies false by {
                    lemma_generated_at_parts(s@, i as int, j0, g0);
                    let q1 = i as int + ("{\"generator\":")@.len();
                    let q2 = q1 + ser_str(g0.generator@).len();
                    let q3 = q2 + (",\"start\":")@.len();
                    let q4 = q3 + ser_str(g0.start@).len();
                    let q5 = q4 + (",\"finish\":")@.len();
                    let q6 = q5 + ser_str(g0.finish@).len();
                    let q7 = q6 + (",\"config\":")@.len();
                    let q8 = q7 + ser_str(g0.config@).len();
                    let q9 = q8 + (",\"output\":")@.len();
                    let q10 = q9 + ser_str(g0.output@).len();
                    assert(i1 as int == q1);
                    align_str(s@, i1 as int, i2 as int, q2, generator@, g0.generator@);
                    assert(i3 as int == q3);
                    align_str(s@, i3 as int, i4 as int, q4, start@, g0.start@);
                    assert(i5 as int == q5);
                    align_str(s@, i5 as int, i6 as int, q6, finish@, g0.finish@);
                }
            }
            return None;
        },
    };
    let (config, i8) = match parse_str(s, i7) {
        Some(p) => p,
        None => {
            proof {
                assert forall|g0: Generated, j0: int| generated_at(s@, i as int, j0, g0)
                    implies false by {
                    lemma_generated_at_parts(s@, i as int, j0, g0);
                    let q1 = i as int + ("{\"generator\":")@.len();
                    let q2 = q1 + ser_str(g0.generator@).len();
                    let q3 = q2 + (",\"start\":")@.len();
                    let q4 = q3 + ser_str(g0.start@).len();
                    let q5 = q4 + (",\"finish\":")@.len();
                    let q6 = q5 + ser_str(g0.finish@).len();
                    let q7 = q6 + (",\"config\":")@.len();
                    let q8 = q7 + ser_str(g0.config@).len();
                    let q9 = q8 + (",\"output\":")@.len();
                    let q10 = q9 + ser_str(g0.output@).len();
                    assert(i1 as int == q1);
                    align_str(s@, i1 as int, i2 as int, q2, generator@, g0.generator@);
                    assert(i3 as int == q3);
                    align_str(s@, i3 as int, i4 as int, q4, start@, g0.start@);
                    assert(i5 as int == q5);
                    align_str(s@, i5 as int, i6 as int, q6, finish@, g0.finish@);
                    assert(i7 as int == q7);
                    assert(str_at(s@, i7 as int, q8, g0.config@));
                }
            }
            return None;
        },
    };
    let i9 = match expect_lit(s, i8, ",\"output\":") {
        Some(j) => j,
        None => {
            proof {
                assert forall|g0: Generated, j0: int| generated_at(s@, i as int, j0, g0)
                    implies false by {
                    lemma_generated_at_parts(s@, i as int, j0, g0);
                    let q1 = i as int + ("{\"generator\":")@.len();
                    let q2 = q1 + ser_str(g0.generator@).len();
                    let q3 = q2 + (",\"start\":")@.len();
                    let q4 = q3 + ser_str(g0.start@).len();
                    let q5 = q4 + (",\"finish\":")@.len();
                    let q6 = q5 + ser_str(g0.finish@).len();
                    let q7 = q6 + (",\"config\":")@.len();
                    let q8 = q7 + ser_str(g0.config@).len();
                    let q9 = q8 + (",\"output\":")@.len();
                    let q10 = q9 + ser_str(g0.output@).len();
                    assert(i1 as int == q1);
                    align_str(s@, i1 as int, i2 as int, q2, generator@, g0.generator@);
                    assert(i3 as int == q3);
                    align_str(s@, i3 as int, i4 as int, q4, start@, g0.start@);
                    assert(i5 as int == q5);
                    align_str(s@, i5 as int, i6 as int, q6, finish@, g0.finish@);
                    assert(i7 as int == q7);
                    align_str(s@, i7 as int, i8 as int, q8, config@, g0.config@);
                }
            }
            return None;
        },
    };
    let (output, i10) = match parse_str(s, i9) {
        Some(p) => p,
        None => {
            proof {
                assert forall|g0: Generated, j0: int| generated_at(s@, i as int, j0, g0)
                    implies false by {
                    lemma_generated_at_parts(s@, i as int, j0, g0);
                    let q1 = i as int + ("{\"generator\":")@.len();
                    let q2 = q1 + ser_str(g0.generator@).len();
                    let q3 = q2 + (",\"start\":")@.len();
                    let q4 = q3 + ser_str(g0.start@).len();
                    let q5 = q4 + (",\"finish\":")@.len();
                    let q6 = q5 + ser_str(g0.finish@).len();
                    let q7 = q6 + (",\"config\":")@.len();
                    let q8 = q7 + ser_str(g0.config@).len();
                    let q9 = q8 + (",\"output\":")@.len();
                    let q10 = q9 + ser_str(g0.output@).len();
                    assert(i1 as int == q1);
                    align_str(s@, i1 as int, i2 as int, q2, generator@, g0.generator@);
                    assert(i3 as int == q3);
                    align_str(s@, i3 as int, i4 as int, q4, start@, g0.start@);
                    assert(i5 as int == q5);
                    align_str(s@, i5 as int, i6 as int, q6, finish@, g0.finish@);
                    assert(i7 as int == q7);
                    align_str(s@, i7 as int, i8 as int, q8, config@, g0.config@);
                    assert(i9 as int == q9);
                    assert(str_at(s@, i9 as int, q10, g0.output@));
                }
            }
            return None;
        },
    };
    let i11 = match expect_lit(s, i10, "}") {
        Some(j) => j,
        None => {
            proof {
                assert forall|g0: Generated, j0: int| generated_at(s@, i as int, j0, g0)
                    implies false by {
                    lemma_generated_at_parts(s@, i as int, j0, g0);
                    let q1 = i as int + ("{\"generator\":")@.len();
                    let q2 = q1 + ser_str(g0.generator@).len();
                    let q3 = q2 + (",\"start\":")@.len();
                    let q4 = q3 + ser_str(g0.start@).len();
                    let q5 = q4 + (",\"finish\":")@.len();
                    let q6 = q5 + ser_str(g0.finish@).len();
                    let q7 = q6 + (",\"config\":")@.len();
                    let q8 = q7 + ser_str(g0.config@).len();
                    let q9 = q8 + (",\"output\":")@.len();
                    let q10 = q9 + ser_str(g0.output@).len();
                    assert(i1 as int == q1);
                    align_str(s@, i1 as int, i2 as int, q2, generator@, g0.generator@);
                    assert(i3 as int == q3);
                    align_str(s@, i3 as int, i4 as int, q4, start@, g0.start@);
                    assert(i5 as int == q5);
                    align_str(s@, i5 as int, i6 as int, q6, finish@, g0.finish@);
                    assert(i7 as int == q7);
                    align_str(s@, i7 as int, i8 as int, q8, config@, g0.config@);
                    assert(i9 as int == q9);
                    align_str(s@, i9 as int, i10 as int, q10, output@, g0.output@);
                }
            }
            return None;
        },
    };
    let g = Generated { generator, start, finish, config, output };
    proof {
        assert(s@.subrange(i as int, i11 as int) =~= ser_generated(g));
    }
    Some((g, i11))
}

/// Parses one tagged content entry starting at `i`.
fn parse_content(s: &str, i: usize) -> (r: Option<(Content, usize)>)
    requires
        i <= s@.len(),
    ensures
        r matches Some(p) ==> i < p.1 <= s@.len() && s@.subrange(i as int, p.1 as int)
            == ser_content(p.0),
        forall|c0: Content, j0: int| #[trigger] content_at(s@, i as int, j0, c0) ==> r is Some,
{
    if let Some(i1) = expect_lit(s, i, "{\"Written\":") {
        let (a, i2) = match parse_authored(s, i1) {
            Some(p) => p,
            None => {
                proof {
                    assert forall|c0: Content, j0: int| content_at(s@, i as int, j0, c0)
                        implies false by {
                        lemma_content_at_parts(s@, i as int, j0, c0);
                        reveal_strlit("{\"Written\":");
                        reveal_strlit("{\"Comment\":");
                        reveal_strlit("{\"Generated\":");
                        match c0 {
                        Content::Written(a0) => {
                            let q1 = i as int + ("{\"Written\":")@.len();
                            let q2 = q1 + ser_authored(a0).len();
                            assert(i1 as int == q1);
                            assert(authored_at(s@, i1 as int, q2, a0));
                        },
                        Content::Comment(a0) => {
                            assert(s@[i as int + 2] == s@.subrange(
                                i as int,
                                i as int + ("{\"Written\":")@.len(),
                            )[2]);
                            assert(s@[i as int + 2] == s@.subrange(
                                i as int,
                                i as int + ("{\"Comment\":")@.len(),
                            )[2]);
                            assert(false);
                        },
                        Content::Generated(g0) => {
                            assert(s@[i as int + 2] == s@.subrange(
                                i as int,
                                i as int + ("{\"Written\":")@.len(),
                            )[2]);
                            assert(s@[i as int + 2] == s@.subrange(
                                i as int,
                                i as int + ("{\"Generated\":")@.len(),
                            )[2]);
                            assert(false);
                        },
                        }
                    }
                }
                return None;
            },
        };
        let i3 = match expect_lit(s, i2, "}") {
            Some(j) => j,
            None => {
                proof {
                    assert forall|c0: Content, j0: int| content_at(s@, i as int, j0, c0)
                        implies false by {
                        lemma_content_at_parts(s@, i as int, j0, c0);
                        reveal_strlit("{\"Written\":");
                        reveal_strlit("{\"Comment\":");
                        reveal_strlit("{\"Generated\":");
                        match c0 {
                        Content::Written(a0) => {
                            let q1 = i as int + ("{\"Written\":")@.len();
                            let q2 = q1 + ser_authored(a0).len();
                            assert(i1 as int == q1);
                            align_authored(s@, i1 as int, i2 as int, q2, a, a0);
                        },
                        Content::Comment(a0) => {
                            assert(s@[i as int + 2] == s@.subrange(
                                i as int,
                                i as int + ("{\"Written\":")@.len(),
                            )[2]);
                            assert(s@[i as int + 2] == s@.subrange(
                                i as int,
                                i as int + ("{\"Comment\":")@.len(),
                            )[2]);
                            assert(false);
                        },
                        Content::Generated(g0) => {
                            assert(s@[i as int + 2] == s@.subrange(
                                i as int,
                                i as int + ("{\"Written\":")@.len(),
                            )[2]);
                            assert(s@[i as int + 2] == s@.subrange(
                                i as int,
                                i as int + ("{\"Generated\":")@.len(),
                            )[2]);
                            assert(false);
                        },
                        }
                    }
                }
                return None;
            },
        };
        let c = Content::Written(a);
        proof {
            assert(s@.subrange(i as int, i3 as int) =~= ser_content(c));
        }
        Some((c, i3))
    } else if let Some(i1) = expect_lit(s, i, "{\"Comment\":") {
        let (a, i2) = match parse_authored(s, i1) {
            Some(p) => p,
            None => {
                proof {
                    assert forall|c0: Content, j0: int| content_at(s@, i as int, j0, c0)
                        implies false by {
                        lemma_content_at_parts(s@, i as int, j0, c0);
                        reveal_strlit("{\"Written\":");
                        reveal_strlit("{\"Comment\":");
                        reveal_strlit("{\"Generated\":");
                        match c0 {
                        Content::Written(a0) => {
                            assert(s@[i as int + 2] == s@.subrange(
                                i as int,
                                i as int + ("{\"Comment\":")@.len(),
                            )[2]);
                            assert(s@[i as int + 2] == s@.subrange(
                                i as int,
                                i as int + ("{\"Written\":")@.len(),
                            )[2]);
                            assert(false);
                        },
                        Content::Comment(a0) => {
                            let q1 = i as int + ("{\"Comment\":")@.len();
                            let q2 = q1 + ser_authored(a0).len();
                            assert(i1 as int == q1);
                            assert(authored_at(s@, i1 as int, q2, a0));
                        },
                        Content::Generated(g0) => {
                            assert(s@[i as int + 2] == s@.subrange(
                                i as int,
                                i as int + ("{\"Comment\":")@.len(),
                            )[2]);
                            assert(s@[i as int + 2] == s@.subrange(
                                i as int,
                                i as int + ("{\"Generated\":")@.len(),
                            )[2]);
                            assert(false);
                        },
                        }
                    }
                }
                return None;
            },
        };
        let i3 = match expect_lit(s, i2, "}") {
            Some(j) => j,
            None => {
                proof {
                    assert forall|c0: Content, j0: int| content_at(s@, i as int, j0, c0)
                        implies false by {
                        lemma_content_at_parts(s@, i as int, j0, c0);
                        reveal_strlit("{\"Written\":");
                        reveal_strlit("{\"Comment\":");
                        reveal_strlit("{\"Generated\":");
                        match c0 {
                        Content::Written(a0) => {
                            assert(s@[i as int + 2] == s@.subrange(
                                i as int,
                                i as int + ("{\"Comment\":")@.len(),
                            )[2]);
                            assert(s@[i as int + 2] == s@.subrange(
                                i as int,
                                i as int + ("{\"Written\":")@.len(),
                            )[2]);
                            assert(false);
                        },
                        Content::Comment(a0) => {
                            let q1 = i as int + ("{\"Comment\":")@.len();
                            let q2 = q1 + ser_authored(a0).len();
                            assert(i1 as int == q1);
                            align_authored(s@, i1 as int, i2 as int, q2, a, a0);
                        },
                        Content::Generated(g0) => {
                            assert(s@[i as int + 2] == s@.subrange(
                                i as int,
                                i as int + ("{\"Comment\":")@.len(),
                            )[2]);
                            assert(s@[i as int + 2] == s@.subrange(
                                i as int,
                                i as int + ("{\"Generated\":")@.len(),
                            )[2]);
                            assert(false);
                        },
                        }
                    }
                }
                return None;
            },
        };
        let c = Content::Comment(a);
        proof {
            assert(s@.subrange(i as int, i3 as int) =~= ser_content(c));
        }
        Some((c, i3))
    } else if let Some(i1) = expect_lit(s, i, "{\"Generated\":") {
        let (g, i2) = match parse_generated(s, i1) {
            Some(p) => p,
            None => {
                proof {
                    assert forall|c0: Content, j0: int| content_at(s@, i as int, j0, c0)
                        implies false by {
                        lemma_content_at_parts(s@, i as int, j0, c0);
                        reveal_strlit("{\"Written\":");
                        reveal_strlit("{\"Comment\":");
                        reveal_strlit("{\"Generated\":");
                        match c0 {
                        Content::Written(a0) => {
                            assert(s@[i as int + 2] == s@.subrange(
                                i as int,
                                i as int + ("{\"Generated\":")@.len(),
                            )[2]);
                            assert(s@[i as int + 2] == s@.subrange(
                                i as int,
                                i as int + ("{\"Written\":")@.len(),
                            )[2]);
                            assert(false);
                        },
                        Content::Comment(a0) => {
                            assert(s@[i as int + 2] == s@.subrange(
                                i as int,
                                i as int + ("{\"Generated\":")@.len(),
                            )[2]);
                            assert(s@[i as int + 2] == s@.subrange(
                                i as int,
                                i as int + ("{\"Comment\":")@.len(),
                            )[2]);
                            assert(false);
                        },
                        Content::Generated(g0) => {
                            let q1 = i as int + ("{\"Generated\":")@.len();
                            let q2 = q1 + ser_generated(g0).len();
                            assert(i1 as int == q1);
                            assert(generated_at(s@, i1 as int, q2, g0));
                        },
                        }
                    }
                }
                return None;
            },
        };
        let i3 = match expect_lit(s, i2, "}") {
            Some(j) => j,
            None => {
                proof {
                    assert forall|c0: Content, j0: int| content_at(s@, i as int, j0, c0)
                        implies false by {
                        lemma_content_at_parts(s@, i as int, j0, c0);
                        reveal_strlit("{\"Written\":");
                        reveal_strlit("{\"Comment\":");
                        reveal_strlit("{\"Generated\":");
                        match c0 {
                        Content::Written(a0) => {
                            assert(s@[i as int + 2] == s@.subrange(
                                i as int,
                                i as int + ("{\"Generated\":")@.len(),
                            )[2]);
                            assert(s@[i as int + 2] == s@.subrange(
                                i as int,
                                i as int + ("{\"Written\":")@.len(),
                            )[2]);
                            assert(false);
                        },
                        Content::Comment(a0) => {
                            assert(s@[i as int + 2] == s@.subrange(
                                i as int,
                                i as int + ("{\"Generated\":")@.len(),
                            )[2]);
                            assert(s@[i as int + 2] == s@.subrange(
                                i as int,
                                i as int + ("{\"Comment\":")@.len(),
                            )[2]);
                            assert(false);
                        },
                        Content::Generated(g0) => {
                            let q1 = i as int + ("{\"Generated\":")@.len();
                            let q2 = q1 + ser_generated(g0).len();
                            assert(i1 as int == q1);
                            align_generated(s@, i1 as int, i2 as int, q2, g, g0);
                        },
                        }
                    }
                }
                return None;
            },
        };
        let c = Content::Generated(g);
        proof {
            assert(s@.subrange(i as int, i3 as int) =~= ser_content(c));
        }
        Some((c, i3))
    } else {
        proof {
            assert forall|c0: Content, j0: int| content_at(s@, i as int, j0, c0) implies false by {
                lemma_content_at_parts(s@, i as int, j0, c0);
                match c0 {
                    Content::Written(a0) => {
                        assert(s@.subrange(
                            i as int,
                            i as int + ("{\"Written\":")@.len(),
                        ) == ("{\"Written\":")@);
                    },
                    Content::Comment(a0) => {
                        assert(s@.subrange(
                            i as int,
                            i as int + ("{\"Comment\":")@.len(),
                        ) == ("{\"Comment\":")@);
                    },
                    Content::Generated(g0) => {
                        assert(s@.subrange(
                            i as int,
                            i as int + ("{\"Generated\":")@.len(),
                        ) == ("{\"Generated\":")@);
                    },
                }
            }
        }
        None
    }
}

/// Parses a JSON array of content entries starting at `i`.
#[verifier::rlimit(100)]
fn parse_content_array(s: &str, i: usize) -> (r: Option<(Vec<Content>, usize)>)
    requires
        i <= s@.len(),
    ensures
        r matches Some(p) ==> i < p.1 <= s@.len() && s@.subrange(i as int, p.1 as int)
            == ser_content_array(p.0@),
        forall|cs0: Seq<Content>, jj: int| #[trigger] carray_at(s@, i as int, jj, cs0) ==> r
            is Some,
{
    proof {
        reveal_strlit("[");
        reveal_strlit("]");
        reveal_strlit(",");
    }
    let i1 = match expect_lit(s, i, "[") {
        Some(j) => j,
        None => {
            proof {
                assert forall|cs0: Seq<Content>, jj: int| carray_at(s@, i as int, jj, cs0)
                    implies false by {
                    lemma_carray_at_parts(s@, i as int, jj, cs0);
                }
            }
            return None;
        },
    };
    if let Some(j) = expect_lit(s, i1, "]") {
        let items: Vec<Content> = Vec::new();
        proof {
            assert(s@.subrange(i as int, j as int) =~= ser_content_array(items@));
        }
        return Some((items, j));
    }
    let (c0, j0) = match parse_content(s, i1) {
        Some(p) => p,
        None => {
            proof {
                assert forall|cs0: Seq<Content>, jj: int| carray_at(s@, i as int, jj, cs0)
                    implies false by {
                    reveal_strlit("[");
                    reveal_strlit("]");
                    reveal_strlit(",");
                    lemma_carray_at_parts(s@, i as int, jj, cs0);
                    let q1 = i as int + ("[")@.len();
                    let q2 = q1 + ser_content_items(cs0).len();
                    assert(i1 as int == q1);
                    if cs0.len() == 0 {
                        assert(ser_content_items(cs0) =~= Seq::<char>::empty());
                        assert(q2 == q1);
                        assert(s@.subrange(i1 as int, i1 as int + ("]")@.len()) == ("]")@);
                    } else {
                        lemma_citems_front_at(s@, q1, q2, cs0);
                    }
                }
            }
            return None;
        },
    };
    let mut items: Vec<Content> = Vec::new();
    items.push(c0);
    let mut cur: usize = j0;
    proof {
        assert(items@.len() == 1);
        assert(s@.subrange(i1 as int, cur as int) == ser_content_items(items@));
        assert forall|cs0: Seq<Content>, jj: int| carray_at(s@, i as int, jj, cs0) implies ({
            let k = items@.len() as int;
            &&& k <= cs0.len()
            &&& cur as int <= jj - ("]")@.len()
            &&& (k == cs0.len() ==> cur as int == jj - ("]")@.len())
            &&& (k < cs0.len() ==> s@.subrange(cur as int, jj - ("]")@.len()) == (",")@
                + ser_content_items(cs0.subrange(k, cs0.len() as int)))
        }) by {
            reveal_strlit("[");
            reveal_strlit("]");
            reveal_strlit(",");
            lemma_carray_at_parts(s@, i as int, jj, cs0);
            let q1 = i as int + ("[")@.len();
            let q2 = q1 + ser_content_items(cs0).len();
            assert(i1 as int == q1);
            if cs0.len() == 0 {
                assert(ser_content_items(cs0) =~= Seq::<char>::empty());
                assert(s@.subrange(i1 as int, i1 as int + ("]")@.len()) == ("]")@);
                assert(false);
            }
            lemma_citems_front_at(s@, q1, q2, cs0);
            align_content(s@, i1 as int, j0 as int, q1 + ser_content(cs0[0]).len(), c0, cs0[0]);
            if cs0.len() == 1 {
                assert(cur as int == q2);
            } else {
                assert(cs0.subrange(1, cs0.len() as int) =~= cs0.subrange(
                    items@.len() as int,
                    cs0.len() as int,
                ));
            }
        }
    }
    loop
        invariant
            i < i1 <= cur <= s@.len(),
            items@.len() >= 1,
            s@.subrange(i as int, i1 as int) == ("[")@,
            s@.subrange(i1 as int, cur as int) == ser_content_items(items@),
            forall|cs0: Seq<Content>, jj: int| #[trigger] carray_at(s@, i as int, jj, cs0) ==> ({
                let k = items@.len() as int;
                &&& k <= cs0.len()
                &&& cur as int <= jj - ("]")@.len()
                &&& (k == cs0.len() ==> cur as int == jj - ("]")@.len())
                &&& (k < cs0.len() ==> s@.subrange(cur as int, jj - ("]")@.len()) == (",")@
                    + ser_content_items(cs0.subrange(k, cs0.len() as int)))
            }),
        decreases s@.len() - cur,
    {
        proof {
            reveal_strlit("]");
            reveal_strlit(",");
        }
        if let Some(j) = expect_lit(s, cur, "]") {
            proof {
                assert(s@.subrange(i as int, j as int) =~= ser_content_array(items@));
            }
            return Some((items, j));
        }
        let jc = match expect_lit(s, cur, ",") {
            Some(j) => j,
            None => {
                proof {
                    assert forall|cs0: Seq<Content>, jj: int| carray_at(s@, i as int, jj, cs0)
                        implies false by {
                        reveal_strlit("]");
                        reveal_strlit(",");
                        lemma_carray_at_parts(s@, i as int, jj, cs0);
                        let k = items@.len() as int;
                        assert(k <= cs0.len());
                        if k == cs0.len() {
                            assert(cur as int == jj - ("]")@.len());
                            assert(s@.subrange(cur as int, cur as int + ("]")@.len()) == ("]")@);
                            assert(cur as int + ("]")@.len() <= s@.len());
                            assert(false);
                        } else {
                            let e = jj - ("]")@.len();
                            assert(s@.subrange(cur as int, e) == (",")@ + ser_content_items(
                                cs0.subrange(k, cs0.len() as int),
                            ));
                            peel(s@, cur as int, cur as int + 1, e, (",")@, ser_content_items(
                                cs0.subrange(k, cs0.len() as int),
                            ));
                            assert(s@.subrange(cur as int, cur as int + (",")@.len()) == (",")@);
                            assert(cur as int + (",")@.len() <= s@.len());
                            assert(false);
                        }
                    }
                }
                return None;
            },
        };
        let (c, j2) = match parse_content(s, jc) {
            Some(p) => p,
            None => {
                proof {
                    assert forall|cs0: Seq<Content>, jj: int| carray_at(s@, i as int, jj, cs0)
                        implies false by {
                        reveal_strlit("]");
                        reveal_strlit(",");
                        lemma_carray_at_parts(s@, i as int, jj, cs0);
                        let k = items@.len() as int;
                        if k == cs0.len() {
                            assert(s@.subrange(cur as int, cur as int + ("]")@.len()) == ("]")@);
                        } else {
                            let e = jj - ("]")@.len();
                            let suffix = cs0.subrange(k, cs0.len() as int);
                            peel(s@, cur as int, cur as int + 1, e, (",")@, ser_content_items(
                                suffix,
                            ));
                            assert(jc as int == cur as int + 1);
                            lemma_citems_front_at(s@, jc as int, e, suffix);
                        }
                    }
                }
                return None;
            },
        };
        let ghost prev = items@;
        items.push(c);
        proof {
            assert(items@.drop_last() =~= prev);
            assert(items@.last() == c);
            assert(ser_content_items(items@) == ser_content_items(prev) + (",")@ + ser_content(c));
            assert(s@.subrange(i1 as int, j2 as int) =~= s@.subrange(i1 as int, cur as int)
                + s@.subrange(cur as int, jc as int) + s@.subrange(jc as int, j2 as int));
            assert(s@.subrange(i1 as int, j2 as int) == ser_content_items(items@));
            assert forall|cs0: Seq<Content>, jj: int| carray_at(s@, i as int, jj, cs0) implies ({
                let k = items@.len() as int;
                &&& k <= cs0.len()
                &&& j2 as int <= jj - ("]")@.len()
                &&& (k == cs0.len() ==> j2 as int == jj - ("]")@.len())
                &&& (k < cs0.len() ==> s@.subrange(j2 as int, jj - ("]")@.len()) == (",")@
                    + ser_content_items(cs0.subrange(k, cs0.len() as int)))
            }) by {
                reveal_strlit("]");
                reveal_strlit(",");
                lemma_carray_at_parts(s@, i as int, jj, cs0);
                let kp = prev.len() as int;
                if kp == cs0.len() {
                    assert(s@.subrange(cur as int, cur as int + ("]")@.len()) == ("]")@);
                    assert(false);
                }
                let e = jj - ("]")@.len();
                let suffix = cs0.subrange(kp, cs0.len() as int);
                peel(s@, cur as int, cur as int + 1, e, (",")@, ser_content_items(suffix));
                assert(jc as int == cur as int + 1);
                lemma_citems_front_at(s@, jc as int, e, suffix);
                align_content(s@, jc as int, j2 as int, jc as int + ser_content(
                    suffix[0],
                ).len(), c, suffix[0]);
                if suffix.len() == 1 {
                    assert(j2 as int == e);
                } else {
                    assert(suffix.subrange(1, suffix.len() as int) =~= cs0.subrange(
                        kp + 1,
                        cs0.len() as int,
                    ));
                }
            }
        }
        cur = j2;
    }
}

/// Parses the shared-metadata object starting at `i`, rejecting a repeated
/// label id: the returned map is well-formed.
fn parse_meta(s: &str, i: usize) -> (r: Option<(SharedMetadata, usize)>)
    requires
        i <= s@.len(),
    ensures
        r matches Some(p) ==> i < p.1 <= s@.len() && s@.subrange(i as int, p.1 as int) == ser_meta(
            p.0,
        ) && p.0.wf(),
        forall|m0: SharedMetadata, jj: int|
            #[trigger] meta_at(s@, i as int, jj, m0) && m0.wf() ==> r is Some,
{
    proof {
        reveal_strlit("{\"labels\":{");
        reveal_strlit("}}");
        reveal_strlit(":");
        reveal_strlit(",");
    }
    let i1 = match expect_lit(s, i, "{\"labels\":{") {
        Some(j) => j,
        None => {
            proof {
                assert forall|m0: SharedMetadata, jj: int| meta_at(s@, i as int, jj, m0) && m0.wf()
                    implies false by {
                    reveal_strlit("{\"labels\":{");
                    reveal_strlit("}}");
                    reveal_strlit(":");
                    reveal_strlit(",");
                    lemma_meta_at_parts(s@, i as int, jj, m0);
                    let q1 = i as int + ("{\"labels\":{")@.len();
                    let q2 = q1 + ser_label_items(m0.entries()).len();
                }
            }
            return None;
        },
    };
    if let Some(j) = expect_lit(s, i1, "}}") {
        let m = SharedMetadata::from_entries(Vec::new());
        proof {
            assert(s@.subrange(i as int, j as int) =~= ser_meta(m));
        }
        return Some((m, j));
    }
    let (k0, jk) = match parse_str(s, i1) {
        Some(p) => p,
        None => {
            proof {
                assert forall|m0: SharedMetadata, jj: int| meta_at(s@, i as int, jj, m0) && m0.wf()
                    implies false by {
                    reveal_strlit("{\"labels\":{");
                    reveal_strlit("}}");
                    reveal_strlit(":");
                    reveal_strlit(",");
                    lemma_meta_at_parts(s@, i as int, jj, m0);
                    let q1 = i as int + ("{\"labels\":{")@.len();
                    let q2 = q1 + ser_label_items(m0.entries()).len();
                    assert(i1 as int == q1);
                    if m0.entries().len() == 0 {
                        assert(ser_label_items(m0.entries()) =~= Seq::<char>::empty());
                        assert(q2 == q1);
                        assert(s@.subrange(i1 as int, i1 as int + ("}}")@.len()) == ("}}")@);
                        assert(false);
                    }
                    lemma_litems_front_at(s@, q1, q2, m0.entries());
                    let pk = q1 + ser_str(m0.entries()[0].0@).len();
                    let pc = pk + (":")@.len();
                    let pv = pc + ser_str(m0.entries()[0].1@).len();
                    assert(str_at(s@, i1 as int, pk, m0.entries()[0].0@));
                }
            }
            return None;
        },
    };
    let jc = match expect_lit(s, jk, ":") {
        Some(j) => j,
        None => {
            proof {
                assert forall|m0: SharedMetadata, jj: int| meta_at(s@, i as int, jj, m0) && m0.wf()
                    implies false by {
                    reveal_strlit("{\"labels\":{");
                    reveal_strlit("}}");
                    reveal_strlit(":");
                    reveal_strlit(",");
                    lemma_meta_at_parts(s@, i as int, jj, m0);
                    let q1 = i as int + ("{\"labels\":{")@.len();
                    let q2 = q1 + ser_label_items(m0.entries()).len();
                    assert(i1 as int == q1);
                    if m0.entries().len() == 0 {
                        assert(ser_label_items(m0.entries()) =~= Seq::<char>::empty());
                        assert(q2 == q1);
                        assert(s@.subrange(i1 as int, i1 as int + ("}}")@.len()) == ("}}")@);
                        assert(false);
                    }
                    lemma_litems_front_at(s@, q1, q2, m0.entries());
                    let pk = q1 + ser_str(m0.entries()[0].0@).len();
                    let pc = pk + (":")@.len();
                    let pv = pc + ser_str(m0.entries()[0].1@).len();
                    align_str(s@, i1 as int, jk as int, pk, k0@, m0.entries()[0].0@);
                }
            }
            return None;
        },
    };
    let (v0, j0) = match parse_str(s, jc) {
        Some(p) => p,
        None => {
            proof {
                assert forall|m0: SharedMetadata, jj: int| meta_at(s@, i as int, jj, m0) && m0.wf()
                    implies false by {
                    reveal_strlit("{\"labels\":{");
                    reveal_strlit("}}");
                    reveal_strlit(":");
                    reveal_strlit(",");
                    lemma_meta_at_parts(s@, i as int, jj, m0);
                    let q1 = i as int + ("{\"labels\":{")@.len();
                    let q2 = q1 + ser_label_items(m0.entries()).len();
                    assert(i1 as int == q1);
                    if m0.entries().len() == 0 {
                        assert(ser_label_items(m0.entries()) =~= Seq::<char>::empty());
                        assert(q2 == q1);
                        assert(s@.subrange(i1 as int, i1 as int + ("}}")@.len()) == ("}}")@);
                        assert(false);
                    }
                    lemma_litems_front_at(s@, q1, q2, m0.entries());
                    let pk = q1 + ser_str(m0.entries()[0].0@).len();
                    let pc = pk + (":")@.len();
                    let pv = pc + ser_str(m0.entries()[0].1@).len();
                    align_str(s@, i1 as int, jk as int, pk, k0@, m0.entries()[0].0@);
                    assert(jc as int == pc);
                    assert(str_at(s@, jc as int, pv, m0.entries()[0].1@));
                }
            }
            return None;
        },
    };
    let mut items: Vec<(String, String)> = Vec::new();
    items.push((k0, v0));
    let mut cur: usize = j0;
    proof {
        assert(items@.len() == 1);
        assert(s@.subrange(i1 as int, cur as int) =~= ser_label_items(items@));
        assert forall|m0: SharedMetadata, jj: int| meta_at(s@, i as int, jj, m0) && m0.wf()
            implies ({
            let kn = items@.len() as int;
            let ee = jj - ("}}")@.len();
            &&& kn <= m0.entries().len()
            &&& cur as int <= ee
            &&& (kn == m0.entries().len() ==> cur as int == ee)
            &&& (kn < m0.entries().len() ==> s@.subrange(cur as int, ee) == (",")@
                + ser_label_items(m0.entries().subrange(kn, m0.entries().len() as int)))
            &&& (forall|m: int| 0 <= m < kn ==> #[trigger] items@[m].0@ == m0.entries()[m].0@)
        }) by {
            reveal_strlit("{\"labels\":{");
            reveal_strlit("}}");
            reveal_strlit(":");
            reveal_strlit(",");
            lemma_meta_at_parts(s@, i as int, jj, m0);
            let q1 = i as int + ("{\"labels\":{")@.len();
            let q2 = q1 + ser_label_items(m0.entries()).len();
            assert(i1 as int == q1);
            if m0.entries().len() == 0 {
                assert(ser_label_items(m0.entries()) =~= Seq::<char>::empty());
                assert(q2 == q1);
                assert(s@.subrange(i1 as int, i1 as int + ("}}")@.len()) == ("}}")@);
                assert(false);
            }
            lemma_litems_front_at(s@, q1, q2, m0.entries());
            let pk = q1 + ser_str(m0.entries()[0].0@).len();
            let pc = pk + (":")@.len();
            let pv = pc + ser_str(m0.entries()[0].1@).len();
            align_str(s@, i1 as int, jk as int, pk, k0@, m0.entries()[0].0@);
            assert(jc as int == pc);
            align_str(s@, jc as int, j0 as int, pv, v0@, m0.entries()[0].1@);
            if m0.entries().len() == 1 {
                assert(cur as int == q2);
            } else {
                assert(m0.entries().subrange(1, m0.entries().len() as int) =~= m0.entries().subrange(
                    items@.len() as int,
                    m0.entries().len() as int,
                ));
            }
            assert(items@[0].0@ == m0.entries()[0].0@);
        }
    }
    loop
        invariant
            i < i1 <= cur <= s@.len(),
            items@.len() >= 1,
            s@.subrange(i as int, i1 as int) == ("{\"labels\":{")@,
            s@.subrange(i1 as int, cur as int) == ser_label_items(items@),
            forall|a: int, b: int|
                0 <= a < b < items@.len() ==> items@[a].0@ != items@[b].0@,
            forall|m0: SharedMetadata, jj: int|
                #[trigger] meta_at(s@, i as int, jj, m0) && m0.wf() ==> ({
                    let kn = items@.len() as int;
                    let ee = jj - ("}}")@.len();
                    &&& kn <= m0.entries().len()
                    &&& cur as int <= ee
                    &&& (kn == m0.entries().len() ==> cur as int == ee)
                    &&& (kn < m0.entries().len() ==> s@.subrange(cur as int, ee) == (",")@
                        + ser_label_items(m0.entries().subrange(kn, m0.entries().len() as int)))
                    &&& (forall|m: int|
                        0 <= m < kn ==> #[trigger] items@[m].0@ == m0.entries()[m].0@)
                }),
        decreases s@.len() - cur,
    {
        proof {
            reveal_strlit("}}");
            reveal_strlit(":");
            reveal_strlit(",");
        }
        if let Some(j) = expect_lit(s, cur, "}}") {
            let m = SharedMetadata::from_entries(items);
            proof {
                assert(s@.subrange(i as int, j as int) =~= ser_meta(m));
            }
            return Some((m, j));
        }
        let jm = match expect_lit(s, cur, ",") {
            Some(j) => j,
            None => {
                proof {
                    assert forall|m0: SharedMetadata, jj: int| meta_at(s@, i as int, jj, m0) && m0.wf()
                        implies false by {
                        reveal_strlit("}}");
                        reveal_strlit(":");
                        reveal_strlit(",");
                        lemma_meta_at_parts(s@, i as int, jj, m0);
                        let ee = jj - ("}}")@.len();
                        let kn = items@.len() as int;
                        if kn == m0.entries().len() {
                            assert(cur as int == ee);
                            assert(s@.subrange(cur as int, cur as int + ("}}")@.len()) == ("}}")@);
                            assert(false);
                        }
                        let suffix = m0.entries().subrange(kn, m0.entries().len() as int);
                        peel(s@, cur as int, cur as int + 1, ee, (",")@, ser_label_items(suffix));
                        assert(s@.subrange(cur as int, cur as int + (",")@.len()) == (",")@);
                    }
                }
                return None;
            },
        };
        let (k, j1) = match parse_str(s, jm) {
            Some(p) => p,
            None => {
                proof {
                    assert forall|m0: SharedMetadata, jj: int| meta_at(s@, i as int, jj, m0) && m0.wf()
                        implies false by {
                        reveal_strlit("}}");
                        reveal_strlit(":");
                        reveal_strlit(",");
                        lemma_meta_at_parts(s@, i as int, jj, m0);
                        let ee = jj - ("}}")@.len();
                        let kn = items@.len() as int;
                        if kn == m0.entries().len() {
                            assert(cur as int == ee);
                            assert(s@.subrange(cur as int, cur as int + ("}}")@.len()) == ("}}")@);
                            assert(false);
                        }
                        let suffix = m0.entries().subrange(kn, m0.entries().len() as int);
                        peel(s@, cur as int, cur as int + 1, ee, (",")@, ser_label_items(suffix));
                        assert(jm as int == cur as int + 1);
                        lemma_litems_front_at(s@, jm as int, ee, suffix);
                        let pk = jm as int + ser_str(suffix[0].0@).len();
                        let pc = pk + (":")@.len();
                        let pv = pc + ser_str(suffix[0].1@).len();
                        assert(str_at(s@, jm as int, pk, suffix[0].0@));
                    }
                }
                return None;
            },
        };
        let j2 = match expect_lit(s, j1, ":") {
            Some(j) => j,
            None => {
                proof {
                    assert forall|m0: SharedMetadata, jj: int| meta_at(s@, i as int, jj, m0) && m0.wf()
                        implies false by {
                        reveal_strlit("}}");
                        reveal_strlit(":");
                        reveal_strlit(",");
                        lemma_meta_at_parts(s@, i as int, jj, m0);
                        let ee = jj - ("}}")@.len();
                        let kn = items@.len() as int;
                        if kn == m0.entries().len() {
                            assert(cur as int == ee);
                            assert(s@.subrange(cur as int, cur as int + ("}}")@.len()) == ("}}")@);
                            assert(false);
                        }
                        let suffix = m0.entries().subrange(kn, m0.entries().len() as int);
                        peel(s@, cur as int, cur as int + 1, ee, (",")@, ser_label_items(suffix));
                        assert(jm as int == cur as int + 1);
                        lemma_litems_front_at(s@, jm as int, ee, suffix);
                        let pk = jm as int + ser_str(suffix[0].0@).len();
                        let pc = pk + (":")@.len();
                        let pv = pc + ser_str(suffix[0].1@).len();
                        align_str(s@, jm as int, j1 as int, pk, k@, suffix[0].0@);
                    }
                }
                return None;
            },
        };
        let (v, j3) = match parse_str(s, j2) {
            Some(p) => p,
            None => {
                proof {
                    assert forall|m0: SharedMetadata, jj: int| meta_at(s@, i as int, jj, m0) && m0.wf()
                        implies false by {
                        reveal_strlit("}}");
                        reveal_strlit(":");
                        reveal_strlit(",");
                        lemma_meta_at_parts(s@, i as int, jj, m0);
                        let ee = jj - ("}}")@.len();
                        let kn = items@.len() as int;
                        if kn == m0.entries().len() {
                            assert(cur as int == ee);
                            assert(s@.subrange(cur as int, cur as int + ("}}")@.len()) == ("}}")@);
                            assert(false);
                        }
                        let suffix = m0.entries().subrange(kn, m0.entries().len() as int);
                        peel(s@, cur as int, cur as int + 1, ee, (",")@, ser_label_items(suffix));
                        assert(jm as int == cur as int + 1);
                        lemma_litems_front_at(s@, jm as int, ee, suffix);
                        let pk = jm as int + ser_str(suffix[0].0@).len();
                        let pc = pk + (":")@.len();
                        let pv = pc + ser_str(suffix[0].1@).len();
                        align_str(s@, jm as int, j1 as int, pk, k@, suffix[0].0@);
                        assert(j2 as int == pc);
                        assert(str_at(s@, j2 as int, pv, suffix[0].1@));
                    }
                }
                return None;
            },
        };
        let mut seen: bool = false;
        let mut t: usize = 0;
        while t < items.len()
            invariant
                t <= items@.len(),
                seen == exists|m: int| 0 <= m < t && items@[m].0@ == k@,
            decreases items@.len() - t,
        {
            if items[t].0 == k {
                seen = true;
            }
            t = t + 1;
        }
        if seen {
            proof {
                assert forall|m0: SharedMetadata, jj: int| meta_at(s@, i as int, jj, m0)
                    && m0.wf() implies false by {
                    reveal_strlit("}}");
                    reveal_strlit(":");
                    reveal_strlit(",");
                    lemma_meta_at_parts(s@, i as int, jj, m0);
                    let ee = jj - ("}}")@.len();
                    let kn = items@.len() as int;
                    if kn == m0.entries().len() {
                        assert(cur as int == ee);
                        assert(s@.subrange(cur as int, cur as int + ("}}")@.len()) == ("}}")@);
                        assert(false);
                    }
                    let suffix = m0.entries().subrange(kn, m0.entries().len() as int);
                    peel(s@, cur as int, cur as int + 1, ee, (",")@, ser_label_items(suffix));
                    assert(jm as int == cur as int + 1);
                    lemma_litems_front_at(s@, jm as int, ee, suffix);
                    let pk = jm as int + ser_str(suffix[0].0@).len();
                    align_str(s@, jm as int, j1 as int, pk, k@, suffix[0].0@);
                    let m = choose|m: int| 0 <= m < kn && items@[m].0@ == k@;
                    assert(items@[m].0@ == m0.entries()[m].0@);
                    assert(m0.entries()[m].0@ == m0.entries()[kn].0@);
                }
            }
            return None;
        }
        let ghost prev = items@;
        items.push((k, v));
        proof {
            assert(items@.drop_last() =~= prev);
            assert(items@.last().0 == k && items@.last().1 == v);
            assert(ser_label_items(items@) == ser_label_items(prev) + (",")@ + ser_str(k@) + (":")@
                + ser_str(v@));
            assert(s@.subrange(i1 as int, j3 as int) =~= s@.subrange(i1 as int, cur as int)
                + s@.subrange(cur as int, jm as int) + s@.subrange(jm as int, j1 as int)
                + s@.subrange(j1 as int, j2 as int) + s@.subrange(j2 as int, j3 as int));
            assert(s@.subrange(i1 as int, j3 as int) == ser_label_items(items@));
            assert forall|m0: SharedMetadata, jj: int| meta_at(s@, i as int, jj, m0) && m0.wf()
                implies ({
                let kn = items@.len() as int;
                let ee = jj - ("}}")@.len();
                &&& kn <= m0.entries().len()
                &&& j3 as int <= ee
                &&& (kn == m0.entries().len() ==> j3 as int == ee)
                &&& (kn < m0.entries().len() ==> s@.subrange(j3 as int, ee) == (",")@
                    + ser_label_items(m0.entries().subrange(kn, m0.entries().len() as int)))
                &&& (forall|m: int| 0 <= m < kn ==> #[trigger] items@[m].0@ == m0.entries()[m].0@)
            }) by {
                reveal_strlit("}}");
                reveal_strlit(":");
                reveal_strlit(",");
                lemma_meta_at_parts(s@, i as int, jj, m0);
                let ee = jj - ("}}")@.len();
                let kp = prev.len() as int;
                if kp == m0.entries().len() {
                    assert(cur as int == ee);
                    assert(s@.subrange(cur as int, cur as int + ("}}")@.len()) == ("}}")@);
                    assert(false);
                }
                let suffix = m0.entries().subrange(kp, m0.entries().len() as int);
                peel(s@, cur as int, cur as int + 1, ee, (",")@, ser_label_items(suffix));
                assert(jm as int == cur as int + 1);
                lemma_litems_front_at(s@, jm as int, ee, suffix);
                let pk = jm as int + ser_str(suffix[0].0@).len();
                let pc = pk + (":")@.len();
                let pv = pc + ser_str(suffix[0].1@).len();
                align_str(s@, jm as int, j1 as int, pk, k@, suffix[0].0@);
                assert(j2 as int == pc);
                align_str(s@, j2 as int, j3 as int, pv, v@, suffix[0].1@);
                if suffix.len() == 1 {
                    assert(j3 as int == ee);
                } else {
                    assert(suffix.subrange(1, suffix.len() as int) =~= m0.entries().subrange(
                        kp + 1,
                        m0.entries().len() as int,
                    ));
                }
                assert(items@[kp].0@ == m0.entries()[kp].0@);
                assert(forall|m: int| 0 <= m < kp ==> #[trigger] items@[m] == prev[m]);
            }
        }
        cur = j3;
    }
}

/// Parses one node object starting at `i`, recursing through its children.
fn parse_node(s: &str, i: usize) -> (r: Option<(NodeSnapshot, usize)>)
    requires
        i <= s@.len(),
    ensures
        r matches Some(p) ==> i < p.1 <= s@.len() && s@.subrange(i as int, p.1 as int) == ser_node(
            p.0,
        ),
        forall|x0: NodeSnapshot, jj: int| #[trigger] node_at(s@, i as int, jj, x0) ==> r is Some,
    decreases s@.len() - i,
{
    proof {
        reveal_strlit("{\"contents\":");
        reveal_strlit("[");
        reveal_strlit("]");
        reveal_strlit("}");
        reveal_strlit(",");
    }
    let i1 = match expect_lit(s, i, "{\"contents\":") {
        Some(j) => j,
        None => {
            proof {
                assert forall|x0: NodeSnapshot, jj: int| node_at(s@, i as int, jj, x0) implies false by {
                    reveal_strlit("{\"contents\":");
                    reveal_strlit(",\"children\":");
                    reveal_strlit("[");
                    reveal_strlit("]");
                    reveal_strlit("}");
                    reveal_strlit(",");
                    lemma_node_at_parts(s@, i as int, jj, x0);
                    let q1 = i as int + ("{\"contents\":")@.len();
                    let q2 = q1 + ser_content_array(x0.contents@).len();
                    let q3 = q2 + (",\"children\":")@.len();
                    let q4 = q3 + ("[")@.len();
                    let q5 = q4 + ser_node_items(x0.children@).len();
                    let q6 = q5 + ("]")@.len();
                }
            }
            return None;
        },
    };
    let (contents, i2) = match parse_content_array(s, i1) {
        Some(p) => p,
        None => {
            proof {
                assert forall|x0: NodeSnapshot, jj: int| node_at(s@, i as int, jj, x0) implies false by {
                    reveal_strlit("{\"contents\":");
                    reveal_strlit(",\"children\":");
                    reveal_strlit("[");
                    reveal_strlit("]");
                    reveal_strlit("}");
                    reveal_strlit(",");
                    lemma_node_at_parts(s@, i as int, jj, x0);
                    let q1 = i as int + ("{\"contents\":")@.len();
                    let q2 = q1 + ser_content_array(x0.contents@).len();
                    let q3 = q2 + (",\"children\":")@.len();
                    let q4 = q3 + ("[")@.len();
                    let q5 = q4 + ser_node_items(x0.children@).len();
                    let q6 = q5 + ("]")@.len();
                    assert(i1 as int == q1);
                    assert(carray_at(s@, i1 as int, q2, x0.contents@));
                }
            }
            return None;
        },
    };
    let i3 = match expect_lit(s, i2, ",\"children\":") {
        Some(j) => j,
        None => {
            proof {
                assert forall|x0: NodeSnapshot, jj: int| node_at(s@, i as int, jj, x0) implies false by {
                    reveal_strlit("{\"contents\":");
                    reveal_strlit(",\"children\":");
                    reveal_strlit("[");
                    reveal_strlit("]");
                    reveal_strlit("}");
                    reveal_strlit(",");
                    lemma_node_at_parts(s@, i as int, jj, x0);
                    let q1 = i as int + ("{\"contents\":")@.len();
                    let q2 = q1 + ser_content_array(x0.contents@).len();
                    let q3 = q2 + (",\"children\":")@.len();
                    let q4 = q3 + ("[")@.len();
                    let q5 = q4 + ser_node_items(x0.children@).len();
                    let q6 = q5 + ("]")@.len();
                    assert(i1 as int == q1);
                    align_carray(s@, i1 as int, i2 as int, q2, contents@, x0.contents@);
                }
            }
            return None;
        },
    };
    let i4 = match expect_lit(s, i3, "[") {
        Some(j) => j,
        None => {
            proof {
                assert forall|x0: NodeSnapshot, jj: int| node_at(s@, i as int, jj, x0) implies false by {
                    reveal_strlit("{\"contents\":");
                    reveal_strlit(",\"children\":");
                    reveal_strlit("[");
                    reveal_strlit("]");
                    reveal_strlit("}");
                    reveal_strlit(",");
                    lemma_node_at_parts(s@, i as int, jj, x0);
                    let q1 = i as int + ("{\"contents\":")@.len();
                    let q2 = q1 + ser_content_array(x0.contents@).len();
                    let q3 = q2 + (",\"children\":")@.len();
                    let q4 = q3 + ("[")@.len();
                    let q5 = q4 + ser_node_items(x0.children@).len();
                    let q6 = q5 + ("]")@.len();
                    assert(i1 as int == q1);
                    align_carray(s@, i1 as int, i2 as int, q2, contents@, x0.contents@);
                    assert(i3 as int == q3);
                }
            }
            return None;
        },
    };
    if let Some(j) = expect_lit(s, i4, "]") {
        let j2 = match expect_lit(s, j, "}") {
            Some(x) => x,
            None => {
                proof {
                    assert forall|x0: NodeSnapshot, jj: int| node_at(s@, i as int, jj, x0) implies false by {
                        reveal_strlit("{\"contents\":");
                        reveal_strlit(",\"children\":");
                        reveal_strlit("[");
                        reveal_strlit("]");
                        reveal_strlit("}");
                        reveal_strlit(",");
                        lemma_node_at_parts(s@, i as int, jj, x0);
                        let q1 = i as int + ("{\"contents\":")@.len();
                        let q2 = q1 + ser_content_array(x0.contents@).len();
                        let q3 = q2 + (",\"children\":")@.len();
                        let q4 = q3 + ("[")@.len();
                        let q5 = q4 + ser_node_items(x0.children@).len();
                        let q6 = q5 + ("]")@.len();
                        assert(i1 as int == q1);
                        align_carray(s@, i1 as int, i2 as int, q2, contents@, x0.contents@);
                        assert(i3 as int == q3);
                        assert(i4 as int == q4);
                        if x0.children@.len() == 0 {
                            assert(ser_node_items(x0.children@) =~= Seq::<char>::empty());
                            assert(q5 == q4);
                            assert(j as int == q6);
                            assert(s@.subrange(q6, jj) == ("}")@);
                        } else {
                            let ch0 = x0.children@[0];
                            lemma_nitems_front_at(s@, q4, q5, x0.children@);
                            crate::laws::lemma_ser_node_first(ch0, Seq::<char>::empty());
                            assert(ser_node(ch0) + Seq::<char>::empty() =~= ser_node(ch0));
                            assert(s@[q4] == s@.subrange(q4, q4 + ser_node(ch0).len())[0]);
                            assert(s@[i4 as int] == s@.subrange(i4 as int, j as int)[0]);
                            assert(false);
                        }
                    }
                }
                return None;
            },
        };
        let node = NodeSnapshot { contents, children: Vec::new() };
        proof {
            assert(node.children@.len() == 0);
            assert(s@.subrange(i as int, j2 as int) =~= s@.subrange(i as int, i1 as int)
                + s@.subrange(i1 as int, i2 as int) + s@.subrange(i2 as int, i3 as int)
                + s@.subrange(i3 as int, i4 as int) + s@.subrange(i4 as int, j as int)
                + s@.subrange(j as int, j2 as int));
            assert(s@.subrange(i as int, j2 as int) =~= ser_node(node));
        }
        return Some((node, j2));
    }
    let (n0, j0) = match parse_node(s, i4) {
        Some(p) => p,
        None => {
            proof {
                assert forall|x0: NodeSnapshot, jj: int| node_at(s@, i as int, jj, x0) implies false by {
                    reveal_strlit("{\"contents\":");
                    reveal_strlit(",\"children\":");
                    reveal_strlit("[");
                    reveal_strlit("]");
                    reveal_strlit("}");
                    reveal_strlit(",");
                    lemma_node_at_parts(s@, i as int, jj, x0);
                    let q1 = i as int + ("{\"contents\":")@.len();
                    let q2 = q1 + ser_content_array(x0.contents@).len();
                    let q3 = q2 + (",\"children\":")@.len();
                    let q4 = q3 + ("[")@.len();
                    let q5 = q4 + ser_node_items(x0.children@).len();
                    let q6 = q5 + ("]")@.len();
                    assert(i1 as int == q1);
                    align_carray(s@, i1 as int, i2 as int, q2, contents@, x0.contents@);
                    assert(i3 as int == q3);
                    assert(i4 as int == q4);
                    if x0.children@.len() == 0 {
                        assert(ser_node_items(x0.children@) =~= Seq::<char>::empty());
                        assert(q5 == q4);
                        assert(s@.subrange(i4 as int, i4 as int + ("]")@.len()) == ("]")@);
                        assert(false);
                    }
                    let ch0 = x0.children@[0];
                    lemma_nitems_front_at(s@, q4, q5, x0.children@);
                    assert(node_at(s@, i4 as int, q4 + ser_node(ch0).len(), ch0));
                }
            }
            return None;
        },
    };
    let mut children: Vec<NodeSnapshot> = Vec::new();
    children.push(n0);
    let mut cur: usize = j0;
    proof {
        assert(children@.len() == 1);
        assert(s@.subrange(i4 as int, cur as int) == ser_node_items(children@));
        assert forall|x0: NodeSnapshot, jj: int| node_at(s@, i as int, jj, x0) implies ({
            let k = children@.len() as int;
            let ee = jj - ("}")@.len() - ("]")@.len();
            &&& k <= x0.children@.len()
            &&& cur as int <= ee
            &&& (k == x0.children@.len() ==> cur as int == ee)
            &&& (k < x0.children@.len() ==> s@.subrange(cur as int, ee) == (",")@
                + ser_node_items(x0.children@.subrange(k, x0.children@.len() as int)))
        }) by {
            reveal_strlit("{\"contents\":");
            reveal_strlit(",\"children\":");
            reveal_strlit("[");
            reveal_strlit("]");
            reveal_strlit("}");
            reveal_strlit(",");
            lemma_node_at_parts(s@, i as int, jj, x0);
            let q1 = i as int + ("{\"contents\":")@.len();
            let q2 = q1 + ser_content_array(x0.contents@).len();
            let q3 = q2 + (",\"children\":")@.len();
            let q4 = q3 + ("[")@.len();
            let q5 = q4 + ser_node_items(x0.children@).len();
            let q6 = q5 + ("]")@.len();
            assert(i1 as int == q1);
            align_carray(s@, i1 as int, i2 as int, q2, contents@, x0.contents@);
            assert(i3 as int == q3);
            assert(i4 as int == q4);
            if x0.children@.len() == 0 {
                assert(ser_node_items(x0.children@) =~= Seq::<char>::empty());
                assert(q5 == q4);
                assert(s@.subrange(i4 as int, i4 as int + ("]")@.len()) == ("]")@);
                assert(false);
            }
            let ch0 = x0.children@[0];
            lemma_nitems_front_at(s@, q4, q5, x0.children@);
            align_node(s@, i4 as int, j0 as int, q4 + ser_node(ch0).len(), n0, ch0);
            if x0.children@.len() == 1 {
                assert(cur as int == q5);
            } else {
                assert(x0.children@.subrange(1, x0.children@.len() as int) =~= x0.children@.subrange(
                    children@.len() as int,
                    x0.children@.len() as int,
                ));
            }
        }
    }
    loop
        invariant
            i < i1 <= i2 <= i3 <= i4,
            i4 <= cur <= s@.len(),
            children@.len() >= 1,
            s@.subrange(i as int, i1 as int) == ("{\"contents\":")@,
            s@.subrange(i1 as int, i2 as int) == ser_content_array(contents@),
            s@.subrange(i2 as int, i3 as int) == (",\"children\":")@,
            s@.subrange(i3 as int, i4 as int) == ("[")@,
            s@.subrange(i4 as int, cur as int) == ser_node_items(children@),
            forall|x0: NodeSnapshot, jj: int| #[trigger] node_at(s@, i as int, jj, x0) ==> ({
                let k = children@.len() as int;
                let ee = jj - ("}")@.len() - ("]")@.len();
                &&& k <= x0.children@.len()
                &&& cur as int <= ee
                &&& (k == x0.children@.len() ==> cur as int == ee)
                &&& (k < x0.children@.len() ==> s@.subrange(cur as int, ee) == (",")@
                    + ser_node_items(x0.children@.subrange(k, x0.children@.len() as int)))
            }),
        decreases s@.len() - cur,
    {
        proof {
            reveal_strlit("]");
            reveal_strlit("}");
            reveal_strlit(",");
        }
        if let Some(j) = expect_lit(s, cur, "]") {
            let j2 = match expect_lit(s, j, "}") {
                Some(x) => x,
                None => {
                    proof {
                        assert forall|x0: NodeSnapshot, jj: int| node_at(s@, i as int, jj, x0) implies false by {
                            reveal_strlit("]");
                            reveal_strlit("}");
                            reveal_strlit(",");
                            lemma_node_at_parts(s@, i as int, jj, x0);
                            let ee = jj - ("}")@.len() - ("]")@.len();
                            let k = children@.len() as int;
                            if k == x0.children@.len() {
                                assert(cur as int == ee);
                                assert(j as int == jj - ("}")@.len());
                                assert(s@.subrange(j as int, jj) == ("}")@);
                            } else {
                                let suffix = x0.children@.subrange(k, x0.children@.len() as int);
                                peel(s@, cur as int, cur as int + 1, ee, (",")@, ser_node_items(suffix));
                                assert(s@.subrange(cur as int, cur as int + 1) == (",")@);
                                assert(s@[cur as int] == s@.subrange(cur as int, j as int)[0]);
                                assert(false);
                            }
                        }
                    }
                    return None;
                },
            };
            let node = NodeSnapshot { contents, children };
            proof {
                assert(s@.subrange(i as int, j2 as int) =~= s@.subrange(i as int, i1 as int)
                    + s@.subrange(i1 as int, i2 as int) + s@.subrange(i2 as int, i3 as int)
                    + s@.subrange(i3 as int, i4 as int) + s@.subrange(i4 as int, cur as int)
                    + s@.subrange(cur as int, j as int) + s@.subrange(j as int, j2 as int));
                assert(s@.subrange(i as int, j2 as int) =~= ser_node(node));
            }
            return Some((node, j2));
        }
        let jc = match expect_lit(s, cur, ",") {
            Some(j) => j,
            None => {
                proof {
                    assert forall|x0: NodeSnapshot, jj: int| node_at(s@, i as int, jj, x0) implies false by {
                        reveal_strlit("]");
                        reveal_strlit("}");
                        reveal_strlit(",");
                        lemma_node_at_parts(s@, i as int, jj, x0);
                        let ee = jj - ("}")@.len() - ("]")@.len();
                        let k = children@.len() as int;
                        if k == x0.children@.len() {
                            assert(cur as int == ee);
                            assert(s@.subrange(cur as int, cur as int + ("]")@.len()) == ("]")@);
                        } else {
                            let suffix = x0.children@.subrange(k, x0.children@.len() as int);
                            peel(s@, cur as int, cur as int + 1, ee, (",")@, ser_node_items(suffix));
                            assert(s@.subrange(cur as int, cur as int + (",")@.len()) == (",")@);
                        }
                    }
                }
                return None;
            },
        };
        let (n, j2) = match parse_node(s, jc) {
            Some(p) => p,
            None => {
                proof {
                    assert forall|x0: NodeSnapshot, jj: int| node_at(s@, i as int, jj, x0) implies false by {
                        reveal_strlit("]");
                        reveal_strlit("}");
                        reveal_strlit(",");
                        lemma_node_at_parts(s@, i as int, jj, x0);
                        let ee = jj - ("}")@.len() - ("]")@.len();
                        let k = children@.len() as int;
                        if k == x0.children@.len() {
                            assert(cur as int == ee);
                            assert(s@.subrange(cur as int, cur as int + ("]")@.len()) == ("]")@);
                        } else {
                            let suffix = x0.children@.subrange(k, x0.children@.len() as int);
                            peel(s@, cur as int, cur as int + 1, ee, (",")@, ser_node_items(suffix));
                            assert(jc as int == cur as int + 1);
                            lemma_nitems_front_at(s@, jc as int, ee, suffix);
                            assert(node_at(s@, jc as int, jc as int + ser_node(suffix[0]).len(), suffix[0]));
                        }
                    }
                }
                return None;
            },
        };
        let ghost prev = children@;
        children.push(n);
        proof {
            assert(children@.drop_last() =~= prev);
            assert(children@.last() == n);
            assert(ser_node_items(children@) == ser_node_items(prev) + (",")@ + ser_node(n));
            assert(s@.subrange(i4 as int, j2 as int) =~= s@.subrange(i4 as int, cur as int)
                + s@.subrange(cur as int, jc as int) + s@.subrange(jc as int, j2 as int));
            assert(s@.subrange(i4 as int, j2 as int) == ser_node_items(children@));
            assert forall|x0: NodeSnapshot, jj: int| node_at(s@, i as int, jj, x0) implies ({
                let k = children@.len() as int;
                let ee = jj - ("}")@.len() - ("]")@.len();
                &&& k <= x0.children@.len()
                &&& j2 as int <= ee
                &&& (k == x0.children@.len() ==> j2 as int == ee)
                &&& (k < x0.children@.len() ==> s@.subrange(j2 as int, ee) == (",")@
                    + ser_node_items(x0.children@.subrange(k, x0.children@.len() as int)))
            }) by {
                reveal_strlit("]");
                reveal_strlit("}");
                reveal_strlit(",");
                lemma_node_at_parts(s@, i as int, jj, x0);
                let ee = jj - ("}")@.len() - ("]")@.len();
                let kp = prev.len() as int;
                if kp == x0.children@.len() {
                    assert(cur as int == ee);
                    assert(s@.subrange(cur as int, cur as int + ("]")@.len()) == ("]")@);
                    assert(false);
                }
                let suffix = x0.children@.subrange(kp, x0.children@.len() as int);
                peel(s@, cur as int, cur as int + 1, ee, (",")@, ser_node_items(suffix));
                assert(jc as int == cur as int + 1);
                lemma_nitems_front_at(s@, jc as int, ee, suffix);
                align_node(s@, jc as int, j2 as int, jc as int + ser_node(suffix[0]).len(), n,
                    suffix[0]);
                if suffix.len() == 1 {
                    assert(j2 as int == ee);
                } else {
                    assert(suffix.subrange(1, suffix.len() as int) =~= x0.children@.subrange(
                        kp + 1,
                        x0.children@.len() as int,
                    ));
                }
            }
        }
        cur = j2;
    }
}

/// What a whole serialized document pins down: each top-level piece in
/// its place.
proof fn lemma_document_parts(s: Seq<char>, d: DocumentSnapshot)
    requires
        s == ser_document(d),
    ensures
        ({
            let q1 = ("{\"tree\":")@.len() as int;
            let q2 = q1 + ser_node(d.tree).len();
            let q3 = q2 + (",\"meta\":")@.len();
            let q4 = q3 + ser_meta(d.meta).len();
            &&& s.subrange(0, q1) == ("{\"tree\":")@
            &&& node_at(s, q1, q2, d.tree)
            &&& s.subrange(q2, q3) == (",\"meta\":")@
            &&& meta_at(s, q3, q4, d.meta)
            &&& s.subrange(q4, s.len() as int) == ("}")@
            &&& s.len() == q4 + ("}")@.len()
        }),
{
    let l1 = ("{\"tree\":")@;
    let l2 = (",\"meta\":")@;
    let lb = ("}")@;
    let sn = ser_node(d.tree);
    let sm = ser_meta(d.meta);
    let q1 = l1.len() as int;
    let q2 = q1 + sn.len();
    let q3 = q2 + l2.len();
    let q4 = q3 + sm.len();
    let n = s.len() as int;
    let e: Seq<char> = Seq::empty();
    assert(s.subrange(0, n) =~= s);
    lemma_shift(l1 + sn + l2 + sm, lb, e);
    lemma_shift(l1 + sn + l2, sm, lb + e);
    lemma_shift(l1 + sn, l2, sm + (lb + e));
    lemma_shift(l1, sn, l2 + (sm + (lb + e)));
    assert(ser_document(d) + e =~= ser_document(d));
    assert(s.subrange(0, n) == l1 + (sn + (l2 + (sm + (lb + e)))));
    peel(s, 0, q1, n, l1, sn + (l2 + (sm + (lb + e))));
    peel(s, q1, q2, n, sn, l2 + (sm + (lb + e)));
    peel(s, q2, q3, n, l2, sm + (lb + e));
    peel(s, q3, q4, n, sm, lb + e);
    assert(lb + e =~= lb);
    peel(s, q4, q4 + lb.len(), n, lb, e);
}

/// Parses a whole document snapshot from its JSON text.
///
/// Success is exact in both directions. `Ok(d)` is returned only when the
/// input is, character for character, [`ser_document`] of `d` —
/// deserialization is a right inverse of [`serialize`], and any snapshot
/// whose serialization is this input is structurally equal to the
/// returned one. Conversely, every serialization of a snapshot with a
/// well-formed label map is accepted, so a round trip through
/// [`serialize`] always succeeds. Any other input is a data failure. The
/// returned label map is well-formed (a repeated id is a data failure).
pub fn deserialize(s: &str) -> (r: Result<DocumentSnapshot, DataError>)
    ensures
        r matches Ok(d) ==> s@ == ser_document(d) && d.meta.wf(),
        r matches Ok(d) ==> forall|d0: DocumentSnapshot|
            s@ == ser_document(d0) ==> crate::laws::document_like(d, d0),
        forall|d0: DocumentSnapshot|
            s@ == #[trigger] ser_document(d0) && d0.meta.wf() ==> r is Ok,
{
    let n = s.unicode_len();
    let i1 = match expect_lit(s, 0, "{\"tree\":") {
        Some(j) => j,
        None => {
            proof {
                assert forall|d0: DocumentSnapshot| s@ == ser_document(d0) && d0.meta.wf()
                    implies false by {
                    reveal_strlit("{\"tree\":");
                    reveal_strlit(",\"meta\":");
                    reveal_strlit("}");
                    lemma_document_parts(s@, d0);
                    let q1 = ("{\"tree\":")@.len() as int;
                    let q2 = q1 + ser_node(d0.tree).len();
                    let q3 = q2 + (",\"meta\":")@.len();
                    let q4 = q3 + ser_meta(d0.meta).len();
                }
            }
            return Err(DataError {});
        },
    };
    let (tree, i2) = match parse_node(s, i1) {
        Some(p) => p,
        None => {
            proof {
                assert forall|d0: DocumentSnapshot| s@ == ser_document(d0) && d0.meta.wf()
                    implies false by {
                    reveal_strlit("{\"tree\":");
                    reveal_strlit(",\"meta\":");
                    reveal_strlit("}");
                    lemma_document_parts(s@, d0);
                    let q1 = ("{\"tree\":")@.len() as int;
                    let q2 = q1 + ser_node(d0.tree).len();
                    let q3 = q2 + (",\"meta\":")@.len();
                    let q4 = q3 + ser_meta(d0.meta).len();
                    assert(i1 as int == q1);
                    assert(node_at(s@, i1 as int, q2, d0.tree));
                }
            }
            return Err(DataError {});
        },
    };
    let i3 = match expect_lit(s, i2, ",\"meta\":") {
        Some(j) => j,
        None => {
            proof {
                assert forall|d0: DocumentSnapshot| s@ == ser_document(d0) && d0.meta.wf()
                    implies false by {
                    reveal_strlit("{\"tree\":");
                    reveal_strlit(",\"meta\":");
                    reveal_strlit("}");
                    lemma_document_parts(s@, d0);
                    let q1 = ("{\"tree\":")@.len() as int;
                    let q2 = q1 + ser_node(d0.tree).len();
                    let q3 = q2 + (",\"meta\":")@.len();
                    let q4 = q3 + ser_meta(d0.meta).len();
                    assert(i1 as int == q1);
                    align_node(s@, i1 as int, i2 as int, q2, tree, d0.tree);
                }
            }
            return Err(DataError {});
        },
    };
    let (meta, i4) = match parse_meta(s, i3) {
        Some(p) => p,
        None => {
            proof {
                assert forall|d0: DocumentSnapshot| s@ == ser_document(d0) && d0.meta.wf()
                    implies false by {
                    reveal_strlit("{\"tree\":");
                    reveal_strlit(",\"meta\":");
                    reveal_strlit("}");
                    lemma_document_parts(s@, d0);
                    let q1 = ("{\"tree\":")@.len() as int;
                    let q2 = q1 + ser_node(d0.tree).len();
                    let q3 = q2 + (",\"meta\":")@.len();
                    let q4 = q3 + ser_meta(d0.meta).len();
                    assert(i1 as int == q1);
                    align_node(s@, i1 as int, i2 as int, q2, tree, d0.tree);
                    assert(i3 as int == q3);
                    assert(meta_at(s@, i3 as int, q4, d0.meta));
                }
            }
            return Err(DataError {});
        },
    };
    let i5 = match expect_lit(s, i4, "}") {
        Some(j) => j,
        None => {
            proof {
                assert forall|d0: DocumentSnapshot| s@ == ser_document(d0) && d0.meta.wf()
                    implies false by {
                    reveal_strlit("{\"tree\":");
                    reveal_strlit(",\"meta\":");
                    reveal_strlit("}");
                    lemma_document_parts(s@, d0);
                    let q1 = ("{\"tree\":")@.len() as int;
                    let q2 = q1 + ser_node(d0.tree).len();
                    let q3 = q2 + (",\"meta\":")@.len();
                    let q4 = q3 + ser_meta(d0.meta).len();
                    assert(i1 as int == q1);
                    align_node(s@, i1 as int, i2 as int, q2, tree, d0.tree);
                    assert(i3 as int == q3);
                    align_meta(s@, i3 as int, i4 as int, q4, meta, d0.meta);
                }
            }
            return Err(DataError {});
        },
    };
    if i5 != n {
        proof {
            assert forall|d0: DocumentSnapshot| s@ == ser_document(d0) && d0.meta.wf()
                implies false by {
                reveal_strlit("{\"tree\":");
                reveal_strlit(",\"meta\":");
                reveal_strlit("}");
                lemma_document_parts(s@, d0);
                let q1 = ("{\"tree\":")@.len() as int;
                let q2 = q1 + ser_node(d0.tree).len();
                let q3 = q2 + (",\"meta\":")@.len();
                let q4 = q3 + ser_meta(d0.meta).len();
                assert(i1 as int == q1);
                align_node(s@, i1 as int, i2 as int, q2, tree, d0.tree);
                assert(i3 as int == q3);
                align_meta(s@, i3 as int, i4 as int, q4, meta, d0.meta);
                assert(i5 as int == q4 + ("}")@.len());
            }
        }
        return Err(DataError {});
    }
    let d = DocumentSnapshot { tree, meta };
    proof {
        assert(s@.subrange(0, n as int) =~= s@);
        assert(s@ =~= ser_document(d));
        assert forall|d0: DocumentSnapshot|
            s@ == ser_document(d0) implies crate::laws::document_like(d, d0) by {
            crate::laws::lemma_serialization_injective(d, d0);
        }
    }
    Ok(d)
}

} // verus!
