use doctree::content::{Authored, Content, SharedMetadata};
use doctree::document::Node;
use doctree::wrapper::Wrapper;

fn entry(author: &str, text: &str) -> Content {
    Content::Written(Authored {
        author: author.to_string(),
        modified: "t".to_string(),
        content: text.to_string(),
    })
}

#[test]
fn clone_shares_state_after_release() {
    let first = Wrapper::new(SharedMetadata::new());
    let second = first.clone();
    let (mut meta, guard) = first.write();
    meta.set_label("id".to_string(), "Ada".to_string());
    guard.release(meta);
    let read = second.read();
    assert_eq!(read.borrow().label_of(&"id".to_string()), Some(&"Ada".to_string()));
    read.release();
}

#[test]
fn clone_shares_state_in_both_directions() {
    let first = Wrapper::new(Node::new(Vec::new()));
    let second = first.clone();
    let (mut node, guard) = second.write();
    node.append(entry("a", "via clone"));
    guard.release(node);
    let read = first.read();
    assert_eq!(read.borrow().content().len(), 1);
    read.release();
}

#[test]
fn concurrent_appends_keep_both_entries() {
    let rt = tokio::runtime::Builder::new_multi_thread()
        .worker_threads(2)
        .build()
        .unwrap();
    let shared = Wrapper::new(Node::new(Vec::new()));
    let w1 = shared.clone();
    let w2 = shared.clone();
    rt.block_on(async move {
        let t1 = tokio::task::spawn_blocking(move || {
            let (mut node, guard) = w1.write();
            node.append(entry("task-one", "first"));
            guard.release(node);
        });
        let t2 = tokio::task::spawn_blocking(move || {
            let (mut node, guard) = w2.write();
            node.append(entry("task-two", "second"));
            guard.release(node);
        });
        t1.await.unwrap();
        t2.await.unwrap();
    });
    let read = shared.read();
    let log = read.borrow().content().clone();
    read.release();
    assert_eq!(log.len(), 2);
    let ones = log.iter().filter(|c| **c == entry("task-one", "first")).count();
    let twos = log.iter().filter(|c| **c == entry("task-two", "second")).count();
    assert_eq!(ones, 1);
    assert_eq!(twos, 1);
}

#[test]
fn exclusive_writers_never_lose_updates() {
    let rt = tokio::runtime::Builder::new_multi_thread()
        .worker_threads(4)
        .build()
        .unwrap();
    let shared = Wrapper::new(Node::new(Vec::new()));
    let tasks = 8;
    let per_task = 25;
    rt.block_on(async {
        let mut handles = Vec::new();
        for t in 0..tasks {
            let w = shared.clone();
            handles.push(tokio::task::spawn_blocking(move || {
                for i in 0..per_task {
                    let (mut node, guard) = w.write();
                    node.append(entry(&format!("task-{}", t), &format!("edit-{}", i)));
                    guard.release(node);
                }
            }));
        }
        for h in handles {
            h.await.unwrap();
        }
    });
    let read = shared.read();
    let log = read.borrow().content().clone();
    read.release();
    // One exclusive writer at a time: every append lands, none is lost.
    assert_eq!(log.len(), tasks * per_task);
    for t in 0..tasks {
        let author = format!("task-{}", t);
        let count = log
            .iter()
            .filter(|c| matches!(c, Content::Written(a) if a.author == author))
            .count();
        assert_eq!(count, per_task);
    }
}

#[test]
fn many_readers_share_access() {
    let shared = Wrapper::new(Node::new(vec![entry("a", "x")]));
    let r1 = shared.read();
    let r2 = shared.read();
    assert_eq!(r1.borrow().content().len(), 1);
    assert_eq!(r2.borrow().content().len(), 1);
    r1.release();
    r2.release();
}
