//! The structural half of the round-trip law: the serialized JSON text
//! determines the snapshot. Two snapshots with the same [`ser_document`]
//! text agree, field for field and child for child, on every character of
//! every string — structural equality, which ignores lock identity because
//! snapshots carry no locks.

use vstd::prelude::*;

use crate::codec::{
    esc, esc_char, ser_authored, ser_content, ser_content_array, ser_content_items, ser_document,
    ser_generated, ser_label_items, ser_meta, ser_node, ser_node_items, ser_str,
};
use crate::content::{Authored, Content, Generated, SharedMetadata};
use crate::document::{DocumentSnapshot, NodeSnapshot};

verus! {

/// Structural equality of authored entries: the same id, timestamp and
/// payload text.
pub open spec fn authored_like(x: Authored, y: Authored) -> bool {
    x.author@ == y.author@ && x.modified@ == y.modified@ && x.content@ == y.content@
}

/// Structural equality of generation records.
pub open spec fn generated_like(x: Generated, y: Generated) -> bool {
    x.generator@ == y.generator@ && x.start@ == y.start@ && x.finish@ == y.finish@ && x.config@
        == y.config@ && x.output@ == y.output@
}

/// Structural equality of content entries: the same tag and the same
/// provenance and payload text.
pub open spec fn content_like(x: Content, y: Content) -> bool {
    match (x, y) {
        (Content::Written(a), Content::Written(b)) => authored_like(a, b),
        (Content::Comment(a), Content::Comment(b)) => authored_like(a, b),
        (Content::Generated(a), Content::Generated(b)) => generated_like(a, b),
        _ => false,
    }
}

/// Pointwise structural equality of content logs.
pub open spec fn contents_like(x: Seq<Content>, y: Seq<Content>) -> bool {
    x.len() == y.len() && forall|i: int| 0 <= i < x.len() ==> content_like(x[i], y[i])
}

/// Pointwise structural equality of label entry lists.
pub open spec fn labels_like(x: Seq<(String, String)>, y: Seq<(String, String)>) -> bool {
    x.len() == y.len() && forall|i: int|
        0 <= i < x.len() ==> x[i].0@ == y[i].0@ && x[i].1@ == y[i].1@
}

/// Structural equality of snapshot trees: the same shape with structurally
/// equal logs at every position.
pub open spec fn node_like(x: NodeSnapshot, y: NodeSnapshot) -> bool
    decreases x,
{
    contents_like(x.contents@, y.contents@) && x.children@.len() == y.children@.len()
        && (forall|i: int|
        0 <= i < x.children@.len() ==> node_like(#[trigger] x.children@[i], y.children@[i]))
}

/// Structural equality of whole snapshots.
pub open spec fn document_like(x: DocumentSnapshot, y: DocumentSnapshot) -> bool {
    node_like(x.tree, y.tree) && labels_like(x.meta.entries(), y.meta.entries())
}

/// [`esc`] peeled from the front instead of the back.
pub(crate) proof fn lemma_esc_front(s: Seq<char>)
    requires
        s.len() > 0,
    ensures
        esc(s) == esc_char(s.first()) + esc(s.drop_first()),
    decreases s.len(),
{
    if s.len() == 1 {
        assert(s.drop_last() =~= Seq::<char>::empty());
        assert(s.drop_first() =~= Seq::<char>::empty());
        assert(s.first() == s.last());
        assert(esc(s) =~= esc_char(s.first()) + esc(s.drop_first()));
    } else {
        lemma_esc_front(s.drop_last());
        assert(s.drop_last().first() == s.first());
        assert(s.drop_last().drop_first() =~= s.drop_first().drop_last());
        assert(s.drop_first().last() == s.last());
        assert(s.drop_first().len() > 0);
        assert(esc(s.drop_first()) == esc(s.drop_first().drop_last()) + esc_char(
            s.drop_first().last(),
        ));
        assert(esc(s) == (esc_char(s.first()) + esc(s.drop_first().drop_last())) + esc_char(
            s.last(),
        ));
        assert((esc_char(s.first()) + esc(s.drop_first().drop_last())) + esc_char(s.last()) =~= esc_char(
            s.first(),
        ) + (esc(s.drop_first().drop_last()) + esc_char(s.last())));
    }
}

/// Cancelling equal-length leading pieces of equal concatenations.
pub(crate) proof fn lemma_cancel(x: Seq<char>, y: Seq<char>, r1: Seq<char>, r2: Seq<char>)
    requires
        x.len() == y.len(),
        x + r1 == y + r2,
    ensures
        x == y,
        r1 == r2,
{
    assert(x =~= (x + r1).subrange(0, x.len() as int));
    assert(y =~= (y + r2).subrange(0, y.len() as int));
    assert(r1 =~= (x + r1).subrange(x.len() as int, (x + r1).len() as int));
    assert(r2 =~= (y + r2).subrange(y.len() as int, (y + r2).len() as int));
}

/// Equal heads and equal tails make equal sequences.
pub(crate) proof fn lemma_eq_from_parts(a: Seq<char>, b: Seq<char>)
    requires
        a.len() > 0,
        b.len() > 0,
        a.first() == b.first(),
        a.drop_first() == b.drop_first(),
    ensures
        a == b,
{
    assert(a.drop_first().len() == a.len() - 1);
    assert(b.drop_first().len() == b.len() - 1);
    assert(a.len() == b.len());
    assert forall|i: int| 0 <= i < a.len() implies a[i] == b[i] by {
        if i > 0 {
            assert(a[i] == a.drop_first()[i - 1]);
            assert(b[i] == b.drop_first()[i - 1]);
        }
    }
    assert(a =~= b);
}

/// A quote-terminated escaped body determines the string and the rest of
/// the text: escaping puts a backslash before every quote it emits, so the
/// first bare quote is the terminator in both readings.
pub(crate) proof fn lemma_str_body_deterministic(a: Seq<char>, b: Seq<char>, r1: Seq<char>, r2: Seq<char>)
    requires
        esc(a) + seq!['"'] + r1 == esc(b) + seq!['"'] + r2,
    ensures
        a == b,
        r1 == r2,
    decreases a.len(),
{
    let l = esc(a) + seq!['"'] + r1;
    if a.len() == 0 {
        assert(esc(a) =~= Seq::<char>::empty());
        assert(l =~= seq!['"'] + r1);
        if b.len() > 0 {
            lemma_esc_front(b);
            assert(l =~= esc_char(b.first()) + (esc(b.drop_first()) + seq!['"'] + r2));
            if b.first() == '"' || b.first() == '\\' {
                assert(l[0] == '\\');
            } else {
                assert(l[0] == b.first());
            }
            assert(l[0] == '"');
            assert(false);
        }
        assert(esc(b) =~= Seq::<char>::empty());
        assert(a =~= b);
        lemma_cancel(seq!['"'], seq!['"'], r1, r2);
    } else {
        if b.len() == 0 {
            assert(esc(b) =~= Seq::<char>::empty());
            assert(esc(b) + seq!['"'] + r2 =~= seq!['"'] + r2);
            lemma_esc_front(a);
            assert(l =~= esc_char(a.first()) + (esc(a.drop_first()) + seq!['"'] + r1));
            if a.first() == '"' || a.first() == '\\' {
                assert(l[0] == '\\');
            } else {
                assert(l[0] == a.first());
            }
            assert(l[0] == '"');
            assert(false);
        }
        lemma_esc_front(a);
        lemma_esc_front(b);
        let a0 = a.first();
        let b0 = b.first();
        let ta = esc(a.drop_first()) + seq!['"'] + r1;
        let tb = esc(b.drop_first()) + seq!['"'] + r2;
        assert(l =~= esc_char(a0) + ta);
        assert(esc(b) + seq!['"'] + r2 =~= esc_char(b0) + tb);
        let sa = a0 == '"' || a0 == '\\';
        let sb = b0 == '"' || b0 == '\\';
        if sa && sb {
            assert(l[0] == '\\' && l[1] == a0);
            assert(l[1] == b0);
            lemma_cancel(esc_char(a0), esc_char(b0), ta, tb);
            lemma_str_body_deterministic(a.drop_first(), b.drop_first(), r1, r2);
            lemma_eq_from_parts(a, b);
        } else if !sa && !sb {
            assert(l[0] == a0);
            assert(l[0] == b0);
            lemma_cancel(esc_char(a0), esc_char(b0), ta, tb);
            lemma_str_body_deterministic(a.drop_first(), b.drop_first(), r1, r2);
            lemma_eq_from_parts(a, b);
        } else if sa && !sb {
            assert(l[0] == '\\');
            assert(l[0] == b0);
            assert(false);
        } else {
            assert(l[0] == a0);
            assert(l[0] == '\\');
            assert(false);
        }
    }
}

/// A serialized string literal determines the string and the rest.
pub(crate) proof fn lemma_ser_str_prefix(a: Seq<char>, b: Seq<char>, r1: Seq<char>, r2: Seq<char>)
    requires
        ser_str(a) + r1 == ser_str(b) + r2,
    ensures
        a == b,
        r1 == r2,
{
    assert(ser_str(a) + r1 =~= seq!['"'] + (esc(a) + seq!['"'] + r1));
    assert(ser_str(b) + r2 =~= seq!['"'] + (esc(b) + seq!['"'] + r2));
    lemma_cancel(seq!['"'], seq!['"'], esc(a) + seq!['"'] + r1, esc(b) + seq!['"'] + r2);
    lemma_str_body_deterministic(a, b, r1, r2);
}

/// Concatenation reassociated one step: peeling the last piece off a
/// left-leaning chain.
pub(crate) proof fn lemma_shift(x: Seq<char>, y: Seq<char>, z: Seq<char>)
    ensures
        (x + y) + z == x + (y + z),
{
    assert((x + y) + z =~= x + (y + z));
}

/// A serialized authored entry determines its fields and the rest.
pub(crate) proof fn lemma_ser_authored_prefix(x: Authored, y: Authored, r1: Seq<char>, r2: Seq<char>)
    requires
        ser_authored(x) + r1 == ser_authored(y) + r2,
    ensures
        authored_like(x, y),
        r1 == r2,
{
    let l1 = ("{\"author\":")@;
    let l2 = (",\"modified\":")@;
    let l3 = (",\"content\":")@;
    let l4 = ("}")@;
    let s1 = ser_str(x.author@);
    let s2 = ser_str(x.modified@);
    let s3 = ser_str(x.content@);
    let w1 = ser_str(y.author@);
    let w2 = ser_str(y.modified@);
    let w3 = ser_str(y.content@);
    let t3 = s3 + (l4 + r1);
    let t2 = s2 + (l3 + t3);
    let t1 = s1 + (l2 + t2);
    let u3 = w3 + (l4 + r2);
    let u2 = w2 + (l3 + u3);
    let u1 = w1 + (l2 + u2);
    lemma_shift(l1 + s1 + l2 + s2 + l3 + s3, l4, r1);
    lemma_shift(l1 + s1 + l2 + s2 + l3, s3, l4 + r1);
    lemma_shift(l1 + s1 + l2 + s2, l3, t3);
    lemma_shift(l1 + s1 + l2, s2, l3 + t3);
    lemma_shift(l1 + s1, l2, t2);
    lemma_shift(l1, s1, l2 + t2);
    assert(ser_authored(x) + r1 == l1 + t1);
    lemma_shift(l1 + w1 + l2 + w2 + l3 + w3, l4, r2);
    lemma_shift(l1 + w1 + l2 + w2 + l3, w3, l4 + r2);
    lemma_shift(l1 + w1 + l2 + w2, l3, u3);
    lemma_shift(l1 + w1 + l2, w2, l3 + u3);
    lemma_shift(l1 + w1, l2, u2);
    lemma_shift(l1, w1, l2 + u2);
    assert(ser_authored(y) + r2 == l1 + u1);
    lemma_cancel(l1, l1, t1, u1);
    lemma_ser_str_prefix(x.author@, y.author@, l2 + t2, l2 + u2);
    lemma_cancel(l2, l2, t2, u2);
    lemma_ser_str_prefix(x.modified@, y.modified@, l3 + t3, l3 + u3);
    lemma_cancel(l3, l3, t3, u3);
    lemma_ser_str_prefix(x.content@, y.content@, l4 + r1, l4 + r2);
    lemma_cancel(l4, l4, r1, r2);
}

/// A serialized generation record determines its fields and the rest.
pub(crate) proof fn lemma_ser_generated_prefix(x: Generated, y: Generated, r1: Seq<char>, r2: Seq<char>)
    requires
        ser_generated(x) + r1 == ser_generated(y) + r2,
    ensures
        generated_like(x, y),
        r1 == r2,
{
    let l1 = ("{\"generator\":")@;
    let l2 = (",\"start\":")@;
    let l3 = (",\"finish\":")@;
    let l4 = (",\"config\":")@;
    let l5 = (",\"output\":")@;
    let l6 = ("}")@;
    let s1 = ser_str(x.generator@);
    let s2 = ser_str(x.start@);
    let s3 = ser_str(x.finish@);
    let s4 = ser_str(x.config@);
    let s5 = ser_str(x.output@);
    let w1 = ser_str(y.generator@);
    let w2 = ser_str(y.start@);
    let w3 = ser_str(y.finish@);
    let w4 = ser_str(y.config@);
    let w5 = ser_str(y.output@);
    let t5 = s5 + (l6 + r1);
    let t4 = s4 + (l5 + t5);
    let t3 = s3 + (l4 + t4);
    let t2 = s2 + (l3 + t3);
    let t1 = s1 + (l2 + t2);
    let u5 = w5 + (l6 + r2);
    let u4 = w4 + (l5 + u5);
    let u3 = w3 + (l4 + u4);
    let u2 = w2 + (l3 + u3);
    let u1 = w1 + (l2 + u2);
    lemma_shift(l1 + s1 + l2 + s2 + l3 + s3 + l4 + s4 + l5 + s5, l6, r1);
    lemma_shift(l1 + s1 + l2 + s2 + l3 + s3 + l4 + s4 + l5, s5, l6 + r1);
    lemma_shift(l1 + s1 + l2 + s2 + l3 + s3 + l4 + s4, l5, t5);
    lemma_shift(l1 + s1 + l2 + s2 + l3 + s3 + l4, s4, l5 + t5);
    lemma_shift(l1 + s1 + l2 + s2 + l3 + s3, l4, t4);
    lemma_shift(l1 + s1 + l2 + s2 + l3, s3, l4 + t4);
    lemma_shift(l1 + s1 + l2 + s2, l3, t3);
    lemma_shift(l1 + s1 + l2, s2, l3 + t3);
    lemma_shift(l1 + s1, l2, t2);
    lemma_shift(l1, s1, l2 + t2);
    assert(ser_generated(x) + r1 == l1 + t1);
    lemma_shift(l1 + w1 + l2 + w2 + l3 + w3 + l4 + w4 + l5 + w5, l6, r2);
    lemma_shift(l1 + w1 + l2 + w2 + l3 + w3 + l4 + w4 + l5, w5, l6 + r2);
    lemma_shift(l1 + w1 + l2 + w2 + l3 + w3 + l4 + w4, l5, u5);
    lemma_shift(l1 + w1 + l2 + w2 + l3 + w3 + l4, w4, l5 + u5);
    lemma_shift(l1 + w1 + l2 + w2 + l3 + w3, l4, u4);
    lemma_shift(l1 + w1 + l2 + w2 + l3, w3, l4 + u4);
    lemma_shift(l1 + w1 + l2 + w2, l3, u3);
    lemma_shift(l1 + w1 + l2, w2, l3 + u3);
    lemma_shift(l1 + w1, l2, u2);
    lemma_shift(l1, w1, l2 + u2);
    assert(ser_generated(y) + r2 == l1 + u1);
    lemma_cancel(l1, l1, t1, u1);
    lemma_ser_str_prefix(x.generator@, y.generator@, l2 + t2, l2 + u2);
    lemma_cancel(l2, l2, t2, u2);
    lemma_ser_str_prefix(x.start@, y.start@, l3 + t3, l3 + u3);
    lemma_cancel(l3, l3, t3, u3);
    lemma_ser_str_prefix(x.finish@, y.finish@, l4 + t4, l4 + u4);
    lemma_cancel(l4, l4, t4, u4);
    lemma_ser_str_prefix(x.config@, y.config@, l5 + t5, l5 + u5);
    lemma_cancel(l5, l5, t5, u5);
    lemma_ser_str_prefix(x.output@, y.output@, l6 + r1, l6 + r2);
    lemma_cancel(l6, l6, r1, r2);
}

/// The character after `{"` tells the three content tags apart.
pub(crate) proof fn lemma_ser_content_tag(x: Content, r: Seq<char>)
    ensures
        (ser_content(x) + r).len() > 2,
        (ser_content(x) + r)[0] == '{',
        x is Written ==> (ser_content(x) + r)[2] == 'W',
        x is Comment ==> (ser_content(x) + r)[2] == 'C',
        x is Generated ==> (ser_content(x) + r)[2] == 'G',
{
    reveal_strlit("{\"Written\":");
    reveal_strlit("{\"Comment\":");
    reveal_strlit("{\"Generated\":");
    let lb = ("}")@;
    match x {
        Content::Written(a) => {
            let lw = ("{\"Written\":")@;
            lemma_shift(lw + ser_authored(a), lb, r);
            lemma_shift(lw, ser_authored(a), lb + r);
            assert(ser_content(x) + r == lw + (ser_authored(a) + (lb + r)));
            assert((lw + (ser_authored(a) + (lb + r)))[2] == lw[2]);
            assert((lw + (ser_authored(a) + (lb + r)))[0] == lw[0]);
        },
        Content::Comment(a) => {
            let lw = ("{\"Comment\":")@;
            lemma_shift(lw + ser_authored(a), lb, r);
            lemma_shift(lw, ser_authored(a), lb + r);
            assert(ser_content(x) + r == lw + (ser_authored(a) + (lb + r)));
            assert((lw + (ser_authored(a) + (lb + r)))[2] == lw[2]);
            assert((lw + (ser_authored(a) + (lb + r)))[0] == lw[0]);
        },
        Content::Generated(g) => {
            let lw = ("{\"Generated\":")@;
            lemma_shift(lw + ser_generated(g), lb, r);
            lemma_shift(lw, ser_generated(g), lb + r);
            assert(ser_content(x) + r == lw + (ser_generated(g) + (lb + r)));
            assert((lw + (ser_generated(g) + (lb + r)))[2] == lw[2]);
            assert((lw + (ser_generated(g) + (lb + r)))[0] == lw[0]);
        },
    }
}

/// A serialized content entry determines its tag, its fields and the rest.
pub(crate) proof fn lemma_ser_content_prefix(x: Content, y: Content, r1: Seq<char>, r2: Seq<char>)
    requires
        ser_content(x) + r1 == ser_content(y) + r2,
    ensures
        content_like(x, y),
        r1 == r2,
{
    lemma_ser_content_tag(x, r1);
    lemma_ser_content_tag(y, r2);
    let lb = ("}")@;
    match x {
        Content::Written(a) => {
            assert(y is Written);
            let b = y->Written_0;
            let lw = ("{\"Written\":")@;
            lemma_shift(lw + ser_authored(a), lb, r1);
            lemma_shift(lw, ser_authored(a), lb + r1);
            lemma_shift(lw + ser_authored(b), lb, r2);
            lemma_shift(lw, ser_authored(b), lb + r2);
            lemma_cancel(lw, lw, ser_authored(a) + (lb + r1), ser_authored(b) + (lb + r2));
            lemma_ser_authored_prefix(a, b, lb + r1, lb + r2);
            lemma_cancel(lb, lb, r1, r2);
        },
        Content::Comment(a) => {
            assert(y is Comment);
            let b = y->Comment_0;
            let lw = ("{\"Comment\":")@;
            lemma_shift(lw + ser_authored(a), lb, r1);
            lemma_shift(lw, ser_authored(a), lb + r1);
            lemma_shift(lw + ser_authored(b), lb, r2);
            lemma_shift(lw, ser_authored(b), lb + r2);
            lemma_cancel(lw, lw, ser_authored(a) + (lb + r1), ser_authored(b) + (lb + r2));
            lemma_ser_authored_prefix(a, b, lb + r1, lb + r2);
            lemma_cancel(lb, lb, r1, r2);
        },
        Content::Generated(g) => {
            assert(y is Generated);
            let h = y->Generated_0;
            let lw = ("{\"Generated\":")@;
            lemma_shift(lw + ser_generated(g), lb, r1);
            lemma_shift(lw, ser_generated(g), lb + r1);
            lemma_shift(lw + ser_generated(h), lb, r2);
            lemma_shift(lw, ser_generated(h), lb + r2);
            lemma_cancel(lw, lw, ser_generated(g) + (lb + r1), ser_generated(h) + (lb + r2));
            lemma_ser_generated_prefix(g, h, lb + r1, lb + r2);
            lemma_cancel(lb, lb, r1, r2);
        },
    }
}


/// The first character of a serialized string literal.
pub(crate) proof fn lemma_ser_str_first(a: Seq<char>, r: Seq<char>)
    ensures
        (ser_str(a) + r).len() > 0,
        (ser_str(a) + r)[0] == '"',
{
    assert(ser_str(a)[0] == '"');
    assert((ser_str(a) + r)[0] == ser_str(a)[0]);
}

/// [`ser_content_items`] peeled from the front instead of the back.
pub(crate) proof fn lemma_content_items_front(x: Seq<Content>)
    requires
        x.len() >= 2,
    ensures
        ser_content_items(x) == ser_content(x.first()) + (",")@ + ser_content_items(
            x.drop_first(),
        ),
    decreases x.len(),
{
    let c0 = ser_content(x.first());
    let l = (",")@;
    if x.len() == 2 {
        assert(x.drop_last().len() == 1);
        assert(x.drop_last()[0] == x[0]);
        assert(x.drop_first().len() == 1);
        assert(x.drop_first()[0] == x[1]);
        assert(x.last() == x[1]);
        assert(ser_content_items(x.drop_last()) == ser_content(x[0]));
        assert(ser_content_items(x.drop_first()) == ser_content(x[1]));
    } else {
        lemma_content_items_front(x.drop_last());
        let mid = x.drop_last().drop_first();
        assert(mid =~= x.drop_first().drop_last());
        assert(x.drop_last().first() == x.first());
        assert(x.drop_first().len() >= 2);
        assert(x.drop_first().last() == x.last());
        let im = ser_content_items(mid);
        let cl = ser_content(x.last());
        // back-peel of the whole, then front-peel of the prefix
        assert(ser_content_items(x) == (c0 + l + im) + l + cl);
        // front-peel of the target tail
        assert(ser_content_items(x.drop_first()) == im + l + cl);
        lemma_shift(c0 + l + im, l, cl);
        lemma_shift(c0 + l, im, l + cl);
        lemma_shift(im, l, cl);
        assert((c0 + l + im) + l + cl == (c0 + l) + (im + (l + cl)));
        assert(c0 + l + (im + l + cl) == (c0 + l) + (im + (l + cl)));
    }
}

/// A `]`-terminated list of serialized content entries determines the
/// entries and the rest.
pub(crate) proof fn lemma_content_items_closed(x: Seq<Content>, y: Seq<Content>, r1: Seq<char>, r2: Seq<char>)
    requires
        ser_content_items(x) + (("]")@ + r1) == ser_content_items(y) + (("]")@ + r2),
    ensures
        contents_like(x, y),
        r1 == r2,
    decreases x.len(),
{
    reveal_strlit("]");
    reveal_strlit(",");
    let lc = ("]")@;
    let l = ser_content_items(x) + (lc + r1);
    if x.len() == 0 {
        assert(ser_content_items(x) =~= Seq::<char>::empty());
        assert(l =~= lc + r1);
        if y.len() == 1 {
            assert(ser_content_items(y) == ser_content(y[0]));
            lemma_ser_content_tag(y[0], lc + r2);
            assert(l[0] == '{');
            assert(l[0] == ']');
            assert(false);
        }
        if y.len() >= 2 {
            lemma_content_items_front(y);
            let c0 = ser_content(y.first());
            let iy = ser_content_items(y.drop_first());
            lemma_shift(c0 + (",")@, iy, lc + r2);
            lemma_shift(c0, (",")@, iy + (lc + r2));
            lemma_ser_content_tag(y.first(), (",")@ + (iy + (lc + r2)));
            assert(l[0] == '{');
            assert(l[0] == ']');
            assert(false);
        }
        assert(y.len() == 0);
        assert(ser_content_items(y) =~= Seq::<char>::empty());
        lemma_cancel(lc, lc, r1, r2);
        assert(contents_like(x, y));
    } else if y.len() == 0 {
        assert(ser_content_items(y) =~= Seq::<char>::empty());
        assert(ser_content_items(y) + (lc + r2) =~= lc + r2);
        if x.len() == 1 {
            assert(ser_content_items(x) == ser_content(x[0]));
            lemma_ser_content_tag(x[0], lc + r1);
            assert(l[0] == '{');
        } else {
            lemma_content_items_front(x);
            let c0 = ser_content(x.first());
            let ix = ser_content_items(x.drop_first());
            lemma_shift(c0 + (",")@, ix, lc + r1);
            lemma_shift(c0, (",")@, ix + (lc + r1));
            lemma_ser_content_tag(x.first(), (",")@ + (ix + (lc + r1)));
            assert(l[0] == '{');
        }
        assert(l[0] == ']');
        assert(false);
    } else if x.len() == 1 && y.len() == 1 {
        assert(ser_content_items(x) == ser_content(x[0]));
        assert(ser_content_items(y) == ser_content(y[0]));
        lemma_ser_content_prefix(x[0], y[0], lc + r1, lc + r2);
        lemma_cancel(lc, lc, r1, r2);
        assert(contents_like(x, y));
    } else if x.len() == 1 && y.len() >= 2 {
        assert(ser_content_items(x) == ser_content(x[0]));
        lemma_content_items_front(y);
        let c0 = ser_content(y.first());
        let iy = ser_content_items(y.drop_first());
        lemma_shift(c0 + (",")@, iy, lc + r2);
        lemma_shift(c0, (",")@, iy + (lc + r2));
        lemma_ser_content_prefix(x[0], y.first(), lc + r1, (",")@ + (iy + (lc + r2)));
        assert((lc + r1)[0] == ']');
        assert(((",")@ + (iy + (lc + r2)))[0] == ',');
        assert(false);
    } else if x.len() >= 2 && y.len() == 1 {
        assert(ser_content_items(y) == ser_content(y[0]));
        lemma_content_items_front(x);
        let c0 = ser_content(x.first());
        let ix = ser_content_items(x.drop_first());
        lemma_shift(c0 + (",")@, ix, lc + r1);
        lemma_shift(c0, (",")@, ix + (lc + r1));
        lemma_ser_content_prefix(x.first(), y[0], (",")@ + (ix + (lc + r1)), lc + r2);
        assert((lc + r2)[0] == ']');
        assert(((",")@ + (ix + (lc + r1)))[0] == ',');
        assert(false);
    } else {
        lemma_content_items_front(x);
        lemma_content_items_front(y);
        let cx = ser_content(x.first());
        let cy = ser_content(y.first());
        let ix = ser_content_items(x.drop_first());
        let iy = ser_content_items(y.drop_first());
        lemma_shift(cx + (",")@, ix, lc + r1);
        lemma_shift(cx, (",")@, ix + (lc + r1));
        lemma_shift(cy + (",")@, iy, lc + r2);
        lemma_shift(cy, (",")@, iy + (lc + r2));
        lemma_ser_content_prefix(
            x.first(),
            y.first(),
            (",")@ + (ix + (lc + r1)),
            (",")@ + (iy + (lc + r2)),
        );
        lemma_cancel((",")@, (",")@, ix + (lc + r1), iy + (lc + r2));
        lemma_content_items_closed(x.drop_first(), y.drop_first(), r1, r2);
        assert(x.drop_first().len() == x.len() - 1);
        assert(y.drop_first().len() == y.len() - 1);
        assert forall|i: int| 0 <= i < x.len() implies content_like(x[i], y[i]) by {
            if i > 0 {
                assert(x[i] == x.drop_first()[i - 1]);
                assert(y[i] == y.drop_first()[i - 1]);
                assert(content_like(x.drop_first()[i - 1], y.drop_first()[i - 1]));
            }
        }
        assert(contents_like(x, y));
    }
}

/// A serialized content array determines the entries and the rest.
pub(crate) proof fn lemma_content_array_prefix(x: Seq<Content>, y: Seq<Content>, r1: Seq<char>, r2: Seq<char>)
    requires
        ser_content_array(x) + r1 == ser_content_array(y) + r2,
    ensures
        contents_like(x, y),
        r1 == r2,
{
    let lo = ("[")@;
    let lc = ("]")@;
    lemma_shift(lo + ser_content_items(x), lc, r1);
    lemma_shift(lo, ser_content_items(x), lc + r1);
    lemma_shift(lo + ser_content_items(y), lc, r2);
    lemma_shift(lo, ser_content_items(y), lc + r2);
    lemma_cancel(lo, lo, ser_content_items(x) + (lc + r1), ser_content_items(y) + (lc + r2));
    lemma_content_items_closed(x, y, r1, r2);
}

/// [`ser_label_items`] peeled from the front instead of the back.
pub(crate) proof fn lemma_label_items_front(x: Seq<(String, String)>)
    requires
        x.len() >= 2,
    ensures
        ser_label_items(x) == ser_str(x.first().0@) + (":")@ + ser_str(x.first().1@) + (",")@
            + ser_label_items(x.drop_first()),
    decreases x.len(),
{
    let p0 = ser_str(x.first().0@) + (":")@ + ser_str(x.first().1@);
    let l = (",")@;
    if x.len() == 2 {
        assert(x.drop_last().len() == 1);
        assert(x.drop_last()[0] == x[0]);
        assert(x.drop_first().len() == 1);
        assert(x.drop_first()[0] == x[1]);
        assert(x.last() == x[1]);
        assert(ser_label_items(x.drop_last()) == ser_str(x[0].0@) + (":")@ + ser_str(x[0].1@));
        assert(ser_label_items(x.drop_first()) == ser_str(x[1].0@) + (":")@ + ser_str(x[1].1@));
    } else {
        lemma_label_items_front(x.drop_last());
        let mid = x.drop_last().drop_first();
        assert(mid =~= x.drop_first().drop_last());
        assert(x.drop_last().first() == x.first());
        assert(x.drop_first().len() >= 2);
        assert(x.drop_first().last() == x.last());
        let im = ser_label_items(mid);
        let pl = ser_str(x.last().0@) + (":")@ + ser_str(x.last().1@);
        // whole = ((p0 + "," + im) + ",") + pl, regrouped around the mid list
        assert(ser_label_items(x) == ((p0 + l + im) + l + ser_str(x.last().0@)) + (":")@
            + ser_str(x.last().1@));
        lemma_shift(p0 + l + im, l + ser_str(x.last().0@) + (":")@, ser_str(x.last().1@));
        assert((p0 + l + im) + (l + ser_str(x.last().0@) + (":")@) == ((p0 + l + im) + l
            + ser_str(x.last().0@)) + (":")@) by {
            lemma_shift(p0 + l + im, l + ser_str(x.last().0@), (":")@);
            lemma_shift(p0 + l + im, l, ser_str(x.last().0@));
        }
        assert(ser_label_items(x) == (p0 + l + im) + ((l + ser_str(x.last().0@) + (":")@)
            + ser_str(x.last().1@)));
        // the target, regrouped the same way
        assert(ser_label_items(x.drop_first()) == im + l + ser_str(x.last().0@) + (":")@
            + ser_str(x.last().1@));
        assert(im + ((l + ser_str(x.last().0@) + (":")@) + ser_str(x.last().1@)) == ((im + l
            + ser_str(x.last().0@)) + (":")@) + ser_str(x.last().1@)) by {
            lemma_shift(im, l + ser_str(x.last().0@) + (":")@, ser_str(x.last().1@));
            lemma_shift(im, l + ser_str(x.last().0@), (":")@);
            lemma_shift(im, l, ser_str(x.last().0@));
        }
        lemma_shift(p0 + l, im, (l + ser_str(x.last().0@) + (":")@) + ser_str(x.last().1@));
        assert(p0 + l + ser_label_items(x.drop_first()) == (p0 + l) + (im + ((l
            + ser_str(x.last().0@) + (":")@) + ser_str(x.last().1@))));
    }
}

/// A `}}`-terminated list of serialized label members determines the
/// entries and the rest.
pub(crate) proof fn lemma_label_items_closed(
    x: Seq<(String, String)>,
    y: Seq<(String, String)>,
    r1: Seq<char>,
    r2: Seq<char>,
)
    requires
        ser_label_items(x) + (("}}")@ + r1) == ser_label_items(y) + (("}}")@ + r2),
    ensures
        labels_like(x, y),
        r1 == r2,
    decreases x.len(),
{
    reveal_strlit("}}");
    reveal_strlit(",");
    reveal_strlit(":");
    let lc = ("}}")@;
    let l = ser_label_items(x) + (lc + r1);
    if x.len() == 0 {
        assert(ser_label_items(x) =~= Seq::<char>::empty());
        assert(l =~= lc + r1);
        if y.len() >= 1 {
            if y.len() == 1 {
                assert(ser_label_items(y) == ser_str(y[0].0@) + (":")@ + ser_str(y[0].1@));
                lemma_shift(ser_str(y[0].0@), (":")@, ser_str(y[0].1@));
                lemma_shift(ser_str(y[0].0@), (":")@ + ser_str(y[0].1@), lc + r2);
                lemma_ser_str_first(y[0].0@, ((":")@ + ser_str(y[0].1@)) + (lc + r2));
            } else {
                lemma_label_items_front(y);
                let py = ser_str(y.first().0@) + (":")@ + ser_str(y.first().1@) + (",")@;
                lemma_shift(py, ser_label_items(y.drop_first()), lc + r2);
                lemma_shift(ser_str(y.first().0@), (":")@ + ser_str(y.first().1@) + (",")@,
                    ser_label_items(y.drop_first()) + (lc + r2)) ;
                assert(py == ser_str(y.first().0@) + ((":")@ + ser_str(y.first().1@) + (",")@))
                    by {
                    lemma_shift(ser_str(y.first().0@), (":")@ + ser_str(y.first().1@), (",")@);
                    lemma_shift(ser_str(y.first().0@), (":")@, ser_str(y.first().1@));
                }
                lemma_ser_str_first(y.first().0@, ((":")@ + ser_str(y.first().1@) + (",")@)
                    + (ser_label_items(y.drop_first()) + (lc + r2)));
            }
            assert(l[0] == '"');
            assert(l[0] == '}');
            assert(false);
        }
        assert(ser_label_items(y) =~= Seq::<char>::empty());
        lemma_cancel(lc, lc, r1, r2);
        assert(labels_like(x, y));
    } else if y.len() == 0 {
        assert(ser_label_items(y) =~= Seq::<char>::empty());
        assert(ser_label_items(y) + (lc + r2) =~= lc + r2);
        if x.len() == 1 {
            assert(ser_label_items(x) == ser_str(x[0].0@) + (":")@ + ser_str(x[0].1@));
            lemma_shift(ser_str(x[0].0@), (":")@, ser_str(x[0].1@));
            lemma_shift(ser_str(x[0].0@), (":")@ + ser_str(x[0].1@), lc + r1);
            lemma_ser_str_first(x[0].0@, ((":")@ + ser_str(x[0].1@)) + (lc + r1));
        } else {
            lemma_label_items_front(x);
            let px = ser_str(x.first().0@) + (":")@ + ser_str(x.first().1@) + (",")@;
            lemma_shift(px, ser_label_items(x.drop_first()), lc + r1);
            assert(px == ser_str(x.first().0@) + ((":")@ + ser_str(x.first().1@) + (",")@)) by {
                lemma_shift(ser_str(x.first().0@), (":")@ + ser_str(x.first().1@), (",")@);
                lemma_shift(ser_str(x.first().0@), (":")@, ser_str(x.first().1@));
            }
            lemma_shift(ser_str(x.first().0@), (":")@ + ser_str(x.first().1@) + (",")@,
                ser_label_items(x.drop_first()) + (lc + r1));
            lemma_ser_str_first(x.first().0@, ((":")@ + ser_str(x.first().1@) + (",")@)
                + (ser_label_items(x.drop_first()) + (lc + r1)));
        }
        assert(l[0] == '"');
        assert(l[0] == '}');
        assert(false);
    } else {
        // both nonempty: peel the first member of each
        let kx = x.first().0@;
        let vx = x.first().1@;
        let ky = y.first().0@;
        let vy = y.first().1@;
        let tx: Seq<char> = if x.len() == 1 { lc + r1 } else {
            (",")@ + (ser_label_items(x.drop_first()) + (lc + r1))
        };
        let ty: Seq<char> = if y.len() == 1 { lc + r2 } else {
            (",")@ + (ser_label_items(y.drop_first()) + (lc + r2))
        };
        if x.len() == 1 {
            assert(ser_label_items(x) == ser_str(kx) + (":")@ + ser_str(vx));
            lemma_shift(ser_str(kx) + (":")@, ser_str(vx), lc + r1);
            lemma_shift(ser_str(kx), (":")@, ser_str(vx) + (lc + r1));
            assert(l == ser_str(kx) + ((":")@ + (ser_str(vx) + tx)));
        } else {
            lemma_label_items_front(x);
            let ix = ser_label_items(x.drop_first());
            assert(ser_label_items(x) == ser_str(kx) + (":")@ + ser_str(vx) + (",")@ + ix);
            lemma_shift(ser_str(kx) + (":")@ + ser_str(vx) + (",")@, ix, lc + r1);
            lemma_shift(ser_str(kx) + (":")@ + ser_str(vx), (",")@, ix + (lc + r1));
            lemma_shift(ser_str(kx) + (":")@, ser_str(vx), (",")@ + (ix + (lc + r1)));
            lemma_shift(ser_str(kx), (":")@, ser_str(vx) + ((",")@ + (ix + (lc + r1))));
            assert(l == ser_str(kx) + ((":")@ + (ser_str(vx) + tx)));
        }
        if y.len() == 1 {
            assert(ser_label_items(y) == ser_str(ky) + (":")@ + ser_str(vy));
            lemma_shift(ser_str(ky) + (":")@, ser_str(vy), lc + r2);
            lemma_shift(ser_str(ky), (":")@, ser_str(vy) + (lc + r2));
            assert(ser_label_items(y) + (lc + r2) == ser_str(ky) + ((":")@ + (ser_str(vy) + ty)));
        } else {
            lemma_label_items_front(y);
            let iy = ser_label_items(y.drop_first());
            assert(ser_label_items(y) == ser_str(ky) + (":")@ + ser_str(vy) + (",")@ + iy);
            lemma_shift(ser_str(ky) + (":")@ + ser_str(vy) + (",")@, iy, lc + r2);
            lemma_shift(ser_str(ky) + (":")@ + ser_str(vy), (",")@, iy + (lc + r2));
            lemma_shift(ser_str(ky) + (":")@, ser_str(vy), (",")@ + (iy + (lc + r2)));
            lemma_shift(ser_str(ky), (":")@, ser_str(vy) + ((",")@ + (iy + (lc + r2))));
            assert(ser_label_items(y) + (lc + r2) == ser_str(ky) + ((":")@ + (ser_str(vy) + ty)));
        }
        lemma_ser_str_prefix(kx, ky, (":")@ + (ser_str(vx) + tx), (":")@ + (ser_str(vy) + ty));
        lemma_cancel((":")@, (":")@, ser_str(vx) + tx, ser_str(vy) + ty);
        lemma_ser_str_prefix(vx, vy, tx, ty);
        if x.len() == 1 && y.len() == 1 {
            lemma_cancel(lc, lc, r1, r2);
            assert(labels_like(x, y));
        } else if x.len() == 1 {
            assert(tx[0] == '}');
            assert(ty[0] == ',');
            assert(false);
        } else if y.len() == 1 {
            assert(tx[0] == ',');
            assert(ty[0] == '}');
            assert(false);
        } else {
            lemma_cancel((",")@, (",")@, ser_label_items(x.drop_first()) + (lc + r1),
                ser_label_items(y.drop_first()) + (lc + r2));
            lemma_label_items_closed(x.drop_first(), y.drop_first(), r1, r2);
            assert(x.drop_first().len() == x.len() - 1);
            assert(y.drop_first().len() == y.len() - 1);
            assert forall|i: int| 0 <= i < x.len() implies x[i].0@ == y[i].0@ && x[i].1@
                == y[i].1@ by {
                if i > 0 {
                    assert(x[i] == x.drop_first()[i - 1]);
                    assert(y[i] == y.drop_first()[i - 1]);
                    assert(x.drop_first()[i - 1].0@ == y.drop_first()[i - 1].0@);
                    assert(x.drop_first()[i - 1].1@ == y.drop_first()[i - 1].1@);
                }
            }
            assert(labels_like(x, y));
        }
    }
}

/// A serialized metadata object determines the label entries and the rest.
pub(crate) proof fn lemma_ser_meta_prefix(x: SharedMetadata, y: SharedMetadata, r1: Seq<char>, r2: Seq<char>)
    requires
        ser_meta(x) + r1 == ser_meta(y) + r2,
    ensures
        labels_like(x.entries(), y.entries()),
        r1 == r2,
{
    let lm = ("{\"labels\":{")@;
    let lc = ("}}")@;
    lemma_shift(lm + ser_label_items(x.entries()), lc, r1);
    lemma_shift(lm, ser_label_items(x.entries()), lc + r1);
    lemma_shift(lm + ser_label_items(y.entries()), lc, r2);
    lemma_shift(lm, ser_label_items(y.entries()), lc + r2);
    lemma_cancel(lm, lm, ser_label_items(x.entries()) + (lc + r1), ser_label_items(y.entries())
        + (lc + r2));
    lemma_label_items_closed(x.entries(), y.entries(), r1, r2);
}


/// The first character of a serialized node object.
pub(crate) proof fn lemma_ser_node_first(n: NodeSnapshot, r: Seq<char>)
    ensures
        (ser_node(n) + r).len() > 0,
        (ser_node(n) + r)[0] == '{',
{
    reveal_strlit("{\"contents\":");
    let l1 = ("{\"contents\":")@;
    let rest = ser_content_array(n.contents@) + (",\"children\":")@ + ("[")@ + ser_node_items(
        n.children@,
    ) + ("]")@ + ("}")@;
    assert(ser_node(n) == l1 + ser_content_array(n.contents@) + (",\"children\":")@ + ("[")@
        + ser_node_items(n.children@) + ("]")@ + ("}")@);
    assert((ser_node(n) + r)[0] == ser_node(n)[0]);
    assert(ser_node(n)[0] == l1[0]);
}

/// [`ser_node_items`] peeled from the front instead of the back.
pub(crate) proof fn lemma_node_items_front(x: Seq<NodeSnapshot>)
    requires
        x.len() >= 2,
    ensures
        ser_node_items(x) == ser_node(x.first()) + (",")@ + ser_node_items(x.drop_first()),
    decreases x.len(),
{
    let c0 = ser_node(x.first());
    let l = (",")@;
    if x.len() == 2 {
        assert(x.drop_last().len() == 1);
        assert(x.drop_last()[0] == x[0]);
        assert(x.drop_first().len() == 1);
        assert(x.drop_first()[0] == x[1]);
        assert(x.last() == x[1]);
        assert(ser_node_items(x.drop_last()) == ser_node(x[0]));
        assert(ser_node_items(x.drop_first()) == ser_node(x[1]));
    } else {
        lemma_node_items_front(x.drop_last());
        let mid = x.drop_last().drop_first();
        assert(mid =~= x.drop_first().drop_last());
        assert(x.drop_last().first() == x.first());
        assert(x.drop_first().len() >= 2);
        assert(x.drop_first().last() == x.last());
        let im = ser_node_items(mid);
        let cl = ser_node(x.last());
        assert(ser_node_items(x) == (c0 + l + im) + l + cl);
        assert(ser_node_items(x.drop_first()) == im + l + cl);
        lemma_shift(c0 + l + im, l, cl);
        lemma_shift(c0 + l, im, l + cl);
        lemma_shift(im, l, cl);
        assert((c0 + l + im) + l + cl == (c0 + l) + (im + (l + cl)));
        assert(c0 + l + (im + l + cl) == (c0 + l) + (im + (l + cl)));
    }
}

/// A serialized node object determines the node and the rest.
pub(crate) proof fn lemma_ser_node_prefix(x: NodeSnapshot, y: NodeSnapshot, r1: Seq<char>, r2: Seq<char>)
    requires
        ser_node(x) + r1 == ser_node(y) + r2,
    ensures
        node_like(x, y),
        r1 == r2,
    decreases x,
{
    let l1 = ("{\"contents\":")@;
    let l2 = (",\"children\":")@;
    let lo = ("[")@;
    let lc = ("]")@;
    let lb = ("}")@;
    let cax = ser_content_array(x.contents@);
    let itx = ser_node_items(x.children@);
    let cay = ser_content_array(y.contents@);
    let ity = ser_node_items(y.children@);
    lemma_shift(l1 + cax + l2 + lo + itx + lc, lb, r1);
    lemma_shift(l1 + cax + l2 + lo + itx, lc, lb + r1);
    lemma_shift(l1 + cax + l2 + lo, itx, lc + (lb + r1));
    lemma_shift(l1 + cax + l2, lo, itx + (lc + (lb + r1)));
    lemma_shift(l1 + cax, l2, lo + (itx + (lc + (lb + r1))));
    lemma_shift(l1, cax, l2 + (lo + (itx + (lc + (lb + r1)))));
    assert(ser_node(x) + r1 == l1 + (cax + (l2 + (lo + (itx + (lc + (lb + r1)))))));
    lemma_shift(l1 + cay + l2 + lo + ity + lc, lb, r2);
    lemma_shift(l1 + cay + l2 + lo + ity, lc, lb + r2);
    lemma_shift(l1 + cay + l2 + lo, ity, lc + (lb + r2));
    lemma_shift(l1 + cay + l2, lo, ity + (lc + (lb + r2)));
    lemma_shift(l1 + cay, l2, lo + (ity + (lc + (lb + r2)))) ;
    lemma_shift(l1, cay, l2 + (lo + (ity + (lc + (lb + r2)))));
    assert(ser_node(y) + r2 == l1 + (cay + (l2 + (lo + (ity + (lc + (lb + r2)))))));
    lemma_cancel(
        l1,
        l1,
        cax + (l2 + (lo + (itx + (lc + (lb + r1))))),
        cay + (l2 + (lo + (ity + (lc + (lb + r2))))),
    );
    lemma_content_array_prefix(
        x.contents@,
        y.contents@,
        l2 + (lo + (itx + (lc + (lb + r1)))),
        l2 + (lo + (ity + (lc + (lb + r2)))),
    );
    lemma_cancel(l2, l2, lo + (itx + (lc + (lb + r1))), lo + (ity + (lc + (lb + r2))));
    lemma_cancel(lo, lo, itx + (lc + (lb + r1)), ity + (lc + (lb + r2)));
    lemma_node_items_closed(x.children@, y.children@, lb + r1, lb + r2);
    lemma_cancel(lb, lb, r1, r2);
    assert(node_like(x, y));
}

/// A `]`-terminated list of serialized nodes determines the nodes and the
/// rest.
pub(crate) proof fn lemma_node_items_closed(
    x: Seq<NodeSnapshot>,
    y: Seq<NodeSnapshot>,
    r1: Seq<char>,
    r2: Seq<char>,
)
    requires
        ser_node_items(x) + (("]")@ + r1) == ser_node_items(y) + (("]")@ + r2),
    ensures
        x.len() == y.len(),
        forall|i: int| 0 <= i < x.len() ==> node_like(#[trigger] x[i], y[i]),
        r1 == r2,
    decreases x,
{
    reveal_strlit("]");
    reveal_strlit(",");
    let lc = ("]")@;
    let l = ser_node_items(x) + (lc + r1);
    if x.len() == 0 {
        assert(ser_node_items(x) =~= Seq::<char>::empty());
        assert(l =~= lc + r1);
        if y.len() == 1 {
            assert(ser_node_items(y) == ser_node(y[0]));
            lemma_ser_node_first(y[0], lc + r2);
            assert(l[0] == '{');
            assert(l[0] == ']');
            assert(false);
        }
        if y.len() >= 2 {
            lemma_node_items_front(y);
            let c0 = ser_node(y.first());
            let iy = ser_node_items(y.drop_first());
            lemma_shift(c0 + (",")@, iy, lc + r2);
            lemma_shift(c0, (",")@, iy + (lc + r2));
            lemma_ser_node_first(y.first(), (",")@ + (iy + (lc + r2)));
            assert(l[0] == '{');
            assert(l[0] == ']');
            assert(false);
        }
        assert(y.len() == 0);
        assert(ser_node_items(y) =~= Seq::<char>::empty());
        lemma_cancel(lc, lc, r1, r2);
    } else if y.len() == 0 {
        assert(ser_node_items(y) =~= Seq::<char>::empty());
        assert(ser_node_items(y) + (lc + r2) =~= lc + r2);
        if x.len() == 1 {
            assert(ser_node_items(x) == ser_node(x[0]));
            lemma_ser_node_first(x[0], lc + r1);
            assert(l[0] == '{');
        } else {
            lemma_node_items_front(x);
            let c0 = ser_node(x.first());
            let ix = ser_node_items(x.drop_first());
            lemma_shift(c0 + (",")@, ix, lc + r1);
            lemma_shift(c0, (",")@, ix + (lc + r1));
            lemma_ser_node_first(x.first(), (",")@ + (ix + (lc + r1)));
            assert(l[0] == '{');
        }
        assert(l[0] == ']');
        assert(false);
    } else if x.len() == 1 && y.len() == 1 {
        assert(ser_node_items(x) == ser_node(x[0]));
        assert(ser_node_items(y) == ser_node(y[0]));
        assert(x[0] == x.first());
        lemma_ser_node_prefix(x[0], y[0], lc + r1, lc + r2);
        lemma_cancel(lc, lc, r1, r2);
    } else if x.len() == 1 && y.len() >= 2 {
        assert(ser_node_items(x) == ser_node(x[0]));
        lemma_node_items_front(y);
        let c0 = ser_node(y.first());
        let iy = ser_node_items(y.drop_first());
        lemma_shift(c0 + (",")@, iy, lc + r2);
        lemma_shift(c0, (",")@, iy + (lc + r2));
        assert(x[0] == x.first());
        lemma_ser_node_prefix(x[0], y.first(), lc + r1, (",")@ + (iy + (lc + r2)));
        assert((lc + r1)[0] == ']');
        assert(((",")@ + (iy + (lc + r2)))[0] == ',');
        assert(false);
    } else if x.len() >= 2 && y.len() == 1 {
        assert(ser_node_items(y) == ser_node(y[0]));
        lemma_node_items_front(x);
        let c0 = ser_node(x.first());
        let ix = ser_node_items(x.drop_first());
        lemma_shift(c0 + (",")@, ix, lc + r1);
        lemma_shift(c0, (",")@, ix + (lc + r1));
        lemma_ser_node_prefix(x.first(), y[0], (",")@ + (ix + (lc + r1)), lc + r2);
        assert((lc + r2)[0] == ']');
        assert(((",")@ + (ix + (lc + r1)))[0] == ',');
        assert(false);
    } else {
        lemma_node_items_front(x);
        lemma_node_items_front(y);
        let cx = ser_node(x.first());
        let cy = ser_node(y.first());
        let ix = ser_node_items(x.drop_first());
        let iy = ser_node_items(y.drop_first());
        lemma_shift(cx + (",")@, ix, lc + r1);
        lemma_shift(cx, (",")@, ix + (lc + r1));
        lemma_shift(cy + (",")@, iy, lc + r2);
        lemma_shift(cy, (",")@, iy + (lc + r2));
        lemma_ser_node_prefix(
            x.first(),
            y.first(),
            (",")@ + (ix + (lc + r1)),
            (",")@ + (iy + (lc + r2)),
        );
        lemma_cancel((",")@, (",")@, ix + (lc + r1), iy + (lc + r2));
        lemma_node_items_closed(x.drop_first(), y.drop_first(), r1, r2);
        assert(x.drop_first().len() == x.len() - 1);
        assert(y.drop_first().len() == y.len() - 1);
        assert forall|i: int| 0 <= i < x.len() implies node_like(#[trigger] x[i], y[i]) by {
            if i == 0 {
                assert(x[0] == x.first());
                assert(y[0] == y.first());
            } else {
                assert(x[i] == x.drop_first()[i - 1]);
                assert(y[i] == y.drop_first()[i - 1]);
                assert(node_like(x.drop_first()[i - 1], y.drop_first()[i - 1]));
            }
        }
    }
}

/// The structural half of the round-trip law: the serialized text
/// determines the snapshot. Two snapshots with the same [`ser_document`]
/// text are structurally equal — the same tree shape, the same content
/// logs entry for entry, and the same label entries, comparing every
/// string character for character.
pub proof fn lemma_serialization_injective(d1: DocumentSnapshot, d2: DocumentSnapshot)
    requires
        ser_document(d1) == ser_document(d2),
    ensures
        document_like(d1, d2),
{
    let l1 = ("{\"tree\":")@;
    let l2 = (",\"meta\":")@;
    let lb = ("}")@;
    let e = Seq::<char>::empty();
    let n1 = ser_node(d1.tree);
    let n2 = ser_node(d2.tree);
    let m1 = ser_meta(d1.meta);
    let m2 = ser_meta(d2.meta);
    assert(ser_document(d1) + e =~= ser_document(d1));
    assert(ser_document(d2) + e =~= ser_document(d2));
    lemma_shift(l1 + n1 + l2 + m1, lb, e);
    lemma_shift(l1 + n1 + l2, m1, lb + e);
    lemma_shift(l1 + n1, l2, m1 + (lb + e));
    lemma_shift(l1, n1, l2 + (m1 + (lb + e)));
    assert(ser_document(d1) + e == l1 + (n1 + (l2 + (m1 + (lb + e)))));
    lemma_shift(l1 + n2 + l2 + m2, lb, e);
    lemma_shift(l1 + n2 + l2, m2, lb + e);
    lemma_shift(l1 + n2, l2, m2 + (lb + e));
    lemma_shift(l1, n2, l2 + (m2 + (lb + e)));
    assert(ser_document(d2) + e == l1 + (n2 + (l2 + (m2 + (lb + e)))));
    lemma_cancel(l1, l1, n1 + (l2 + (m1 + (lb + e))), n2 + (l2 + (m2 + (lb + e))));
    lemma_ser_node_prefix(d1.tree, d2.tree, l2 + (m1 + (lb + e)), l2 + (m2 + (lb + e)));
    lemma_cancel(l2, l2, m1 + (lb + e), m2 + (lb + e));
    lemma_ser_meta_prefix(d1.meta, d2.meta, lb + e, lb + e);
}

} // verus!


