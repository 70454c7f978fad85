use doctree::codec::{deserialize, serialize};
use doctree::content::{Authored, Content, Generated, SharedMetadata};
use doctree::document::{Document, DocumentSnapshot, NodeSnapshot};
use doctree::storage::StoredDocument;

fn written(author: &str, modified: &str, content: &str) -> Content {
    Content::Written(Authored {
        author: author.to_string(),
        modified: modified.to_string(),
        content: content.to_string(),
    })
}

fn empty_doc() -> DocumentSnapshot {
    DocumentSnapshot {
        tree: NodeSnapshot { contents: Vec::new(), children: Vec::new() },
        meta: SharedMetadata::new(),
    }
}

#[test]
fn serialize_empty_document() {
    let text = serialize(&empty_doc());
    assert_eq!(
        text,
        "{\"tree\":{\"contents\":[],\"children\":[]},\"meta\":{\"labels\":{}}}"
    );
}

#[test]
fn serialize_written_hello_under_tree_field() {
    let doc = Document::new();
    let (mut root, guard) = doc.tree.write();
    root.append(written("A1", "t0", "hello"));
    guard.release(root);
    let snap = doc.export().expect("export");
    let text = serialize(&snap);
    assert!(text.contains(
        "{\"contents\":[{\"Written\":{\"author\":\"A1\",\"modified\":\"t0\",\"content\":\"hello\"}}],\"children\":[]}"
    ));
    assert_eq!(
        text,
        "{\"tree\":{\"contents\":[{\"Written\":{\"author\":\"A1\",\"modified\":\"t0\",\"content\":\"hello\"}}],\"children\":[]},\"meta\":{\"labels\":{}}}"
    );
}

#[test]
fn serialize_escapes_quotes_and_backslashes() {
    let mut doc = empty_doc();
    doc.tree.contents.push(written("a", "t", "say \"hi\" \\ bye"));
    let text = serialize(&doc);
    assert!(text.contains("\"content\":\"say \\\"hi\\\" \\\\ bye\""));
    let back = deserialize(&text).expect("round trip");
    assert_eq!(back, doc);
}

#[test]
fn round_trip_nested_document() {
    let mut meta = SharedMetadata::new();
    meta.set_label("gen-1".to_string(), "Summarizer".to_string());
    meta.set_label("auth-1".to_string(), "Ada".to_string());
    let doc = DocumentSnapshot {
        tree: NodeSnapshot {
            contents: vec![
                written("auth-1", "2024-05-01T10:00:00Z", "intro"),
                Content::Comment(Authored {
                    author: "auth-1".to_string(),
                    modified: "2024-05-01T10:05:00Z".to_string(),
                    content: "needs work".to_string(),
                }),
                Content::Generated(Generated {
                    generator: "gen-1".to_string(),
                    start: "2024-05-01T10:06:00Z".to_string(),
                    finish: "2024-05-01T10:07:00Z".to_string(),
                    config: "temperature=0".to_string(),
                    output: "summary text".to_string(),
                }),
            ],
            children: vec![
                NodeSnapshot {
                    contents: vec![written("auth-1", "t1", "chapter one")],
                    children: vec![NodeSnapshot {
                        contents: Vec::new(),
                        children: Vec::new(),
                    }],
                },
                NodeSnapshot { contents: Vec::new(), children: Vec::new() },
            ],
        },
        meta,
    };
    let text = serialize(&doc);
    let back = deserialize(&text).expect("round trip");
    assert_eq!(back, doc);
    assert_eq!(serialize(&back), text);
}

#[test]
fn round_trip_empty_document() {
    let doc = empty_doc();
    let back = deserialize(&serialize(&doc)).expect("round trip");
    assert_eq!(back, doc);
}

#[test]
fn generated_with_start_after_finish_is_accepted() {
    let mut doc = empty_doc();
    doc.tree.contents.push(Content::Generated(Generated {
        generator: "g".to_string(),
        start: "2024-12-31T23:59:59Z".to_string(),
        finish: "2024-01-01T00:00:00Z".to_string(),
        config: "c".to_string(),
        output: "o".to_string(),
    }));
    let text = serialize(&doc);
    let back = deserialize(&text).expect("schema accepts start later than finish");
    assert_eq!(back, doc);
}

#[test]
fn deserialize_rejects_malformed_inputs() {
    assert!(deserialize("").is_err());
    assert!(deserialize("{}").is_err());
    assert!(deserialize("{\"tree\":").is_err());
    assert!(deserialize("{\"tree\":{\"contents\":[],\"children\":[]}}").is_err());
    assert!(deserialize("[1,2,3]").is_err());
    assert!(deserialize("{\"tree\":{\"contents\":[{\"Drawn\":{}}],\"children\":[]},\"meta\":{\"labels\":{}}}").is_err());
}

#[test]
fn deserialize_rejects_trailing_garbage() {
    let text = serialize(&empty_doc());
    let mut padded = text.clone();
    padded.push(' ');
    assert!(deserialize(&padded).is_err());
    assert!(deserialize(&format!("{} ", text)).is_err());
}

#[test]
fn deserialize_rejects_unterminated_string() {
    assert!(deserialize(
        "{\"tree\":{\"contents\":[{\"Written\":{\"author\":\"a,\"modified\":\"t\",\"content\":\"x\"}}],\"children\":[]},\"meta\":{\"labels\":{}}}"
    )
    .is_err());
}

#[test]
fn deserialize_rejects_duplicate_label_ids() {
    let text =
        "{\"tree\":{\"contents\":[],\"children\":[]},\"meta\":{\"labels\":{\"a\":\"x\",\"a\":\"y\"}}}";
    assert!(deserialize(text).is_err());
}

#[test]
fn deserialize_accepts_distinct_labels() {
    let text =
        "{\"tree\":{\"contents\":[],\"children\":[]},\"meta\":{\"labels\":{\"a\":\"x\",\"b\":\"y\"}}}";
    let doc = deserialize(text).expect("distinct ids parse");
    assert_eq!(doc.meta.label_of(&"a".to_string()), Some(&"x".to_string()));
    assert_eq!(doc.meta.label_of(&"b".to_string()), Some(&"y".to_string()));
    assert_eq!(serialize(&doc), text);
}

#[test]
fn stored_document_render_and_decode_round_trip() {
    let handle = StoredDocument::bind("notes/report.json".to_string());
    assert_eq!(handle.location, "notes/report.json");
    let mut doc = empty_doc();
    doc.tree.contents.push(written("a", "t", "persisted"));
    let text = handle.render(&doc);
    let back = handle.decode(&text).expect("decode of render");
    assert_eq!(back, doc);
    assert!(handle.decode("not json at all").is_err());
}
