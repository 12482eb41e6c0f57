use vcs_snapshot::config::init;
use vcs_snapshot::fs_tree::{FsChild, FsNode, FsTree};
use vcs_snapshot::ignore::{is_ignored, read_ignore_file};
use vcs_snapshot::snapshot::{build_snapshot, Entry};
use vcs_snapshot::store::{blob_file_path, blob_shard_folder, ContentStore};

const HELLO_SHA1: &str = "aaf4c61ddcc5e8a2dabede0f3b482cd9aea9434d";
const DUP_SHA1: &str = "7116abcdd2d3626e5fc741a6eb7dcc0170df6491";

fn file(name: &str, content: &[u8]) -> FsChild {
    FsChild {
        name: name.to_string(),
        node: FsNode::File(content.to_vec()),
    }
}

fn dir(name: &str, children: Vec<FsChild>) -> FsChild {
    FsChild {
        name: name.to_string(),
        node: FsNode::Dir(FsTree { entries: children }),
    }
}

#[test]
fn ignore_file_lines_are_parsed() {
    let rules = read_ignore_file("target\n\n# a comment\n/logs\n  spaced  \n");
    assert!(is_ignored("target", &rules));
    assert!(is_ignored("logs", &rules));
    assert!(is_ignored("spaced", &rules));
    assert!(!is_ignored("# a comment", &rules));
    assert!(!is_ignored("", &rules));
    assert!(!is_ignored("other", &rules));
}

#[test]
fn ignore_file_handles_crlf_lines() {
    let rules = read_ignore_file("alpha\r\n/beta\r\n");
    assert!(is_ignored("alpha", &rules));
    assert!(is_ignored("beta", &rules));
    assert!(!is_ignored("alpha\r", &rules));
}

#[test]
fn empty_ignore_text_excludes_nothing() {
    let rules = read_ignore_file("");
    assert!(!is_ignored("anything", &rules));
}

#[test]
fn ignored_names_never_appear_in_the_snapshot() {
    let details = init();
    let root = FsTree {
        entries: vec![
            file(".vcs.ignore", b"b\n# c is only a comment\n/d\n"),
            file("a", b"hello"),
            file("b", b"hello"),
            file("c", b"hello"),
            dir("d", vec![file("inner", b"hello")]),
        ],
    };
    let (snap, store) = build_snapshot(&root, &details);
    assert!(snap.get(&"a".to_string()).is_some());
    assert!(snap.get(&"c".to_string()).is_some());
    assert!(snap.get(&".vcs.ignore".to_string()).is_some());
    assert!(snap.get(&"b".to_string()).is_none());
    assert!(snap.get(&"d".to_string()).is_none());
    // Only a, c and the ignore file itself were hashed: the ignored
    // file b has the same content as a, and d's subtree was skipped.
    assert_eq!(store.blob_count(), 2);
}

#[test]
fn ignore_rules_do_not_reach_subdirectories() {
    let details = init();
    let root = FsTree {
        entries: vec![
            file(".vcs.ignore", b"x\n"),
            dir("sub", vec![file("x", b"hello")]),
        ],
    };
    let (snap, _) = build_snapshot(&root, &details);
    match snap.get(&"sub".to_string()) {
        Some(Entry::Directory(sub)) => {
            assert!(sub.get(&"x".to_string()).is_some());
        }
        other => panic!("expected a directory under sub, got {:?}", other),
    }
}

#[test]
fn invalid_utf8_ignore_file_excludes_nothing() {
    let details = init();
    let root = FsTree {
        entries: vec![
            file(".vcs.ignore", &[0xff, 0xfe, 0x62]),
            file("b", b"hello"),
        ],
    };
    let (snap, _) = build_snapshot(&root, &details);
    assert!(snap.get(&"b".to_string()).is_some());
}

#[test]
fn put_returns_the_content_hash_and_stores_once() {
    let mut store = ContentStore::new();
    let first = store.put(&b"dup".to_vec());
    let second = store.put(&b"dup".to_vec());
    assert_eq!(first, DUP_SHA1);
    assert_eq!(second, DUP_SHA1);
    assert_eq!(store.blob_count(), 1);
    let (h, c) = store.blob_at(0);
    assert_eq!(h, DUP_SHA1);
    assert_eq!(c, &b"dup".to_vec());
}

#[test]
fn distinct_contents_get_distinct_slots() {
    let mut store = ContentStore::new();
    let a = store.put(&b"dup".to_vec());
    let b = store.put(&b"hello".to_vec());
    assert_ne!(a, b);
    assert_eq!(b, HELLO_SHA1);
    assert_eq!(store.blob_count(), 2);
}

#[test]
fn blob_paths_are_derived_from_the_hash() {
    let details = init();
    let hash = HELLO_SHA1.to_string();
    assert_eq!(
        blob_shard_folder(&details, &hash),
        "version_control_system/objects/aaf4c6"
    );
    assert_eq!(
        blob_file_path(&details, &hash),
        "version_control_system/objects/aaf4c6/aaf4c61ddcc5e8a2dabede0f3b482cd9aea9434d.blob"
    );
}
