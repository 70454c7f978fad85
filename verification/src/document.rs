//! The document tree: nodes with an append-only content log and
//! independently locked children, the aggregate `Document` root, and the
//! plain snapshot types that serialization works on.

use vstd::prelude::*;

use crate::content::{Content, SharedMetadata};
use crate::wrapper::{Shared, Wrapper};

verus! {

/// One position in the live document tree: an append-only log of content
/// entries and an ordered list of children, each behind its own lock.
pub struct Node {
    contents: Vec<Content>,
    children: Vec<Wrapper<Node>>,
}

impl Shared for Node {
    /// Any node value may live behind a wrapper.
    open spec fn inv(&self) -> bool {
        true
    }
}

impl Shared for SharedMetadata {
    /// The label map keeps its ids pairwise distinct.
    open spec fn inv(&self) -> bool {
        self.wf()
    }
}

impl Node {
    /// The node's content log.
    pub closed spec fn log(&self) -> Seq<Content> {
        self.contents@
    }

    /// The node's child handles, in order.
    pub closed spec fn child_handles(&self) -> Seq<Wrapper<Node>> {
        self.children@
    }

    /// A node with the given initial content log and no children.
    pub fn new(contents: Vec<Content>) -> (n: Node)
        ensures
            n.log() == contents@,
            n.child_handles() == Seq::<Wrapper<Node>>::empty(),
    {
        Node { contents, children: Vec::new() }
    }

    /// The content log, oldest entry first.
    pub fn content(&self) -> (res: &Vec<Content>)
        ensures
            res@ == self.log(),
    {
        &self.contents
    }

    /// The child handles, in order.
    pub fn children(&self) -> (res: &Vec<Wrapper<Node>>)
        ensures
            res@ == self.child_handles(),
    {
        &self.children
    }

    /// Appends one entry to the end of the content log; past entries are
    /// never altered.
    pub fn append(&mut self, entry: Content)
        ensures
            final(self).log() == old(self).log().push(entry),
            final(self).child_handles() == old(self).child_handles(),
    {
        self.contents.push(entry);
    }

    /// Attaches one child handle at the end of the children list.
    pub fn attach_child(&mut self, child: Wrapper<Node>)
        ensures
            final(self).child_handles() == old(self).child_handles().push(child),
            final(self).log() == old(self).log(),
    {
        self.children.push(child);
    }

    /// A new node with a value-wise copy of this node's content log and an
    /// empty children list: a branch of the content without the subtree.
    pub fn shallow_clone(&self) -> (n: Node)
        ensures
            n.log() == self.log(),
            n.child_handles() == Seq::<Wrapper<Node>>::empty(),
    {
        let mut copied: Vec<Content> = Vec::new();
        let mut k: usize = 0;
        while k < self.contents.len()
            invariant
                k <= self.contents.len(),
                copied@ =~= self.contents@.subrange(0, k as int),
            decreases self.contents.len() - k,
        {
            copied.push(self.contents[k].clone());
            assert(copied@ =~= self.contents@.subrange(0, k as int + 1));
            k = k + 1;
        }
        assert(copied@ =~= self.contents@);
        Node { contents: copied, children: Vec::new() }
    }
}

/// A point-in-time copy of one node: the same shape as [`Node`], but with
/// plain child values instead of locked handles.
#[derive(Debug, PartialEq, Eq)]
pub struct NodeSnapshot {
    pub contents: Vec<Content>,
    pub children: Vec<NodeSnapshot>,
}

/// A point-in-time copy of a whole document.
#[derive(Debug, PartialEq, Eq)]
pub struct DocumentSnapshot {
    pub tree: NodeSnapshot,
    pub meta: SharedMetadata,
}

/// The aggregate root: one wrapped tree and one wrapped label map, locked
/// independently so metadata updates never block tree edits.
pub struct Document {
    pub tree: Wrapper<Node>,
    pub meta: Wrapper<SharedMetadata>,
}

/// Builds a live, independently locked tree from a plain snapshot tree.
pub fn import_node(snap: &NodeSnapshot) -> (n: Node)
    ensures
        n.log() == snap.contents@,
        n.child_handles().len() == snap.children@.len(),
    decreases *snap,
{
    let mut copied: Vec<Content> = Vec::new();
    let mut k: usize = 0;
    while k < snap.contents.len()
        invariant
            k <= snap.contents.len(),
            copied@ =~= snap.contents@.subrange(0, k as int),
        decreases snap.contents.len() - k,
    {
        copied.push(snap.contents[k].clone());
        assert(copied@ =~= snap.contents@.subrange(0, k as int + 1));
        k = k + 1;
    }
    assert(copied@ =~= snap.contents@);
    let mut node = Node::new(copied);
    let mut j: usize = 0;
    while j < snap.children.len()
        invariant
            j <= snap.children.len(),
            node.log() == snap.contents@,
            node.child_handles().len() == j,
        decreases snap.children.len() - j,
    {
        proof {
            assert(snap.children@[j as int] == snap.children[j as int]);
        }
        let child = import_node(&snap.children[j]);
        node.attach_child(Wrapper::new(child));
        j = j + 1;
    }
    node
}

/// Reads a point-in-time copy of the subtree behind `handle`, following at
/// most `depth` levels of nesting. Returns `None` when the tree nests
/// deeper than `depth` (in particular, when shared handles have produced a
/// cycle, which no finite depth exhausts).
pub fn export_node(handle: &Wrapper<Node>, depth: u64) -> (r: Option<NodeSnapshot>)
    decreases depth,
{
    if depth == 0 {
        return None;
    }
    let guard = handle.read();
    let node = guard.borrow();
    let mut copied: Vec<Content> = Vec::new();
    let mut k: usize = 0;
    while k < node.contents.len()
        invariant
            k <= node.contents@.len(),
        decreases node.contents@.len() - k,
    {
        copied.push(node.contents[k].clone());
        k = k + 1;
    }
    let contents = copied;
    let mut children: Vec<NodeSnapshot> = Vec::new();
    let mut complete: bool = true;
    let mut j: usize = 0;
    while complete && j < node.children.len()
        invariant
            j <= node.children@.len(),
            depth >= 1,
        decreases node.children@.len() - j,
    {
        match export_node(&node.children[j], depth - 1) {
            Some(snap) => {
                children.push(snap);
            },
            None => {
                complete = false;
            },
        }
        j = j + 1;
    }
    guard.release();
    if complete {
        Some(NodeSnapshot { contents, children })
    } else {
        None
    }
}

impl Document {
    /// A fresh document: an empty root node and an empty label map.
    pub fn new() -> Document {
        Document {
            tree: Wrapper::new(Node::new(Vec::new())),
            meta: Wrapper::new(SharedMetadata::new()),
        }
    }

    /// Rebuilds a live document from a snapshot: a freshly locked tree and
    /// a freshly locked copy of the label map.
    pub fn import(snap: &DocumentSnapshot) -> Document
        requires
            snap.meta.wf(),
    {
        let meta = snap.meta.clone();
        assert(meta.wf());
        Document { tree: Wrapper::new(import_node(&snap.tree)), meta: Wrapper::new(meta) }
    }

    /// Captures a point-in-time snapshot of the whole document through the
    /// shared read path, taking each node's lock top-down. Returns `None`
    /// when the tree nests deeper than [`crate::MAX_EXPORT_DEPTH`]. The
    /// captured label map carries the lock's invariant, so the snapshot is
    /// fit to be imported again.
    pub fn export(&self) -> (r: Option<DocumentSnapshot>)
        ensures
            r matches Some(snap) ==> snap.meta.wf(),
    {
        let tree = match export_node(&self.tree, crate::MAX_EXPORT_DEPTH) {
            Some(t) => t,
            None => {
                return None;
            },
        };
        let guard = self.meta.read();
        let meta = guard.borrow().clone();
        proof {
            assert(meta.entries() == guard.value().entries());
            assert(meta.wf());
        }
        guard.release();
        Some(DocumentSnapshot { tree, meta })
    }
}

} // verus!
