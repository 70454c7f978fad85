use doctree::content::{Authored, Content, Generated, SharedMetadata};
use doctree::document::{export_node, import_node, Document, DocumentSnapshot, Node, NodeSnapshot};
use doctree::wrapper::Wrapper;

fn written(author: &str, modified: &str, content: &str) -> Content {
    Content::Written(Authored {
        author: author.to_string(),
        modified: modified.to_string(),
        content: content.to_string(),
    })
}

fn comment(author: &str, modified: &str, content: &str) -> Content {
    Content::Comment(Authored {
        author: author.to_string(),
        modified: modified.to_string(),
        content: content.to_string(),
    })
}

#[test]
fn node_new_holds_initial_log() {
    let node = Node::new(vec![written("a", "t", "x"), comment("b", "u", "y")]);
    assert_eq!(node.content().len(), 2);
    assert_eq!(node.content()[0], written("a", "t", "x"));
    assert_eq!(node.content()[1], comment("b", "u", "y"));
    assert_eq!(node.children().len(), 0);
}

#[test]
fn append_only_grows_at_the_end() {
    let mut node = Node::new(Vec::new());
    node.append(written("a", "t0", "first"));
    node.append(comment("b", "t1", "second"));
    assert_eq!(node.content().len(), 2);
    assert_eq!(node.content()[0], written("a", "t0", "first"));
    assert_eq!(node.content()[1], comment("b", "t1", "second"));
}

#[test]
fn shallow_clone_has_no_children() {
    let mut node = Node::new(vec![written("a", "t", "x")]);
    node.attach_child(Wrapper::new(Node::new(Vec::new())));
    node.attach_child(Wrapper::new(Node::new(vec![comment("c", "u", "z")])));
    assert_eq!(node.children().len(), 2);
    let branch = node.shallow_clone();
    assert_eq!(branch.children().len(), 0);
    assert_eq!(branch.content().clone(), node.content().clone());
}

#[test]
fn shallow_clone_is_independently_owned() {
    let node = Node::new(vec![written("a", "t", "x")]);
    let mut branch = node.shallow_clone();
    branch.append(comment("b", "u", "extra"));
    assert_eq!(node.content().len(), 1);
    assert_eq!(branch.content().len(), 2);
    assert_eq!(node.content()[0], written("a", "t", "x"));
}

#[test]
fn metadata_set_and_resolve_labels() {
    let mut meta = SharedMetadata::new();
    meta.set_label("id-1".to_string(), "Ada".to_string());
    meta.set_label("id-2".to_string(), "Babbage".to_string());
    assert_eq!(meta.label_of(&"id-1".to_string()), Some(&"Ada".to_string()));
    assert_eq!(meta.label_of(&"id-2".to_string()), Some(&"Babbage".to_string()));
    assert_eq!(meta.label_of(&"id-3".to_string()), None);
    meta.set_label("id-1".to_string(), "Lovelace".to_string());
    assert_eq!(meta.label_of(&"id-1".to_string()), Some(&"Lovelace".to_string()));
    assert_eq!(meta.label_of(&"id-2".to_string()), Some(&"Babbage".to_string()));
    assert_eq!(meta.entry_list().len(), 2);
}

#[test]
fn import_then_export_preserves_structure() {
    let snap = DocumentSnapshot {
        tree: NodeSnapshot {
            contents: vec![written("a", "t0", "root text")],
            children: vec![
                NodeSnapshot {
                    contents: vec![comment("b", "t1", "left")],
                    children: Vec::new(),
                },
                NodeSnapshot {
                    contents: Vec::new(),
                    children: vec![NodeSnapshot {
                        contents: vec![written("c", "t2", "deep")],
                        children: Vec::new(),
                    }],
                },
            ],
        },
        meta: {
            let mut m = SharedMetadata::new();
            m.set_label("a".to_string(), "Author A".to_string());
            m
        },
    };
    let live = Document::import(&snap);
    let back = live.export().expect("tree is shallow, export must succeed");
    assert_eq!(back, snap);
}

#[test]
fn export_follows_attached_subtrees() {
    let doc = Document::new();
    let (mut root, guard) = doc.tree.write();
    root.append(written("a", "t0", "hello"));
    let child = Node::new(vec![comment("b", "t1", "note")]);
    root.attach_child(Wrapper::new(child));
    guard.release(root);

    let snap = doc.export().expect("export");
    assert_eq!(snap.tree.contents, vec![written("a", "t0", "hello")]);
    assert_eq!(snap.tree.children.len(), 1);
    assert_eq!(snap.tree.children[0].contents, vec![comment("b", "t1", "note")]);
}

#[test]
fn import_node_builds_locked_children() {
    let snap = NodeSnapshot {
        contents: vec![written("a", "t", "x")],
        children: vec![NodeSnapshot { contents: Vec::new(), children: Vec::new() }],
    };
    let node = import_node(&snap);
    assert_eq!(node.content().clone(), snap.contents);
    assert_eq!(node.children().len(), 1);
    let handle = node.children()[0].clone();
    let round = export_node(&handle, 16).expect("child export");
    assert_eq!(round, snap.children[0]);
}
