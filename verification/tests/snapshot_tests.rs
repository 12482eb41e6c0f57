use vcs_snapshot::config::init;
use vcs_snapshot::fs_tree::{FsChild, FsNode, FsTree};
use vcs_snapshot::snapshot::{build_snapshot, reconcile_snapshot, Entry, Snapshot};
use vcs_snapshot::store::ContentStore;

const HELLO_SHA1: &str = "aaf4c61ddcc5e8a2dabede0f3b482cd9aea9434d";
const WORLD_SHA1: &str = "7c211433f02071597741e6ff5a8ea34789abbf43";
const WORLD_BANG_SHA1: &str = "a6794c8314ad6aeb08ed149660ee3fefbcda5e6c";
const NEW_SHA1: &str = "c2a6b03f190dfb2b4aa91f8af8d477a9bc3401dc";
const EMPTY_SHA1: &str = "da39a3ee5e6b4b0d3255bfef95601890afd80709";

fn file(name: &str, content: &[u8]) -> FsChild {
    FsChild {
        name: name.to_string(),
        node: FsNode::File(content.to_vec()),
    }
}

fn dir(name: &str, children: Vec<FsChild>) -> FsChild {
    FsChild {
        name: name.to_string(),
        node: FsNode::Dir(FsTree { entries: children }),
    }
}

fn file_hash<'a>(snap: &'a Snapshot, name: &str) -> &'a str {
    match snap.get(&name.to_string()) {
        Some(Entry::File(h)) => h.as_str(),
        other => panic!("expected a file under {:?}, got {:?}", name, other),
    }
}

fn sub_snapshot<'a>(snap: &'a Snapshot, name: &str) -> &'a Snapshot {
    match snap.get(&name.to_string()) {
        Some(Entry::Directory(s)) => s,
        other => panic!("expected a directory under {:?}, got {:?}", name, other),
    }
}

fn store_contents(store: &ContentStore) -> Vec<(String, Vec<u8>)> {
    let mut v = Vec::new();
    for i in 0..store.blob_count() {
        let (h, c) = store.blob_at(i);
        v.push((h.clone(), c.clone()));
    }
    v.sort();
    v
}

#[test]
fn build_end_to_end_example() {
    // root/ holds a.txt = "hello" and sub/ holding b.txt = "world".
    let root = FsTree {
        entries: vec![
            file("a.txt", b"hello"),
            dir("sub", vec![file("b.txt", b"world")]),
        ],
    };
    let details = init();
    let (snap, store) = build_snapshot(&root, &details);

    assert_eq!(snap.entries.len(), 2);
    assert_eq!(file_hash(&snap, "a.txt"), HELLO_SHA1);
    let sub = sub_snapshot(&snap, "sub");
    assert_eq!(sub.entries.len(), 1);
    assert_eq!(file_hash(sub, "b.txt"), WORLD_SHA1);

    let blobs = store_contents(&store);
    assert_eq!(
        blobs,
        vec![
            (WORLD_SHA1.to_string(), b"world".to_vec()),
            (HELLO_SHA1.to_string(), b"hello".to_vec()),
        ]
    );
}

#[test]
fn reconcile_example() {
    // Start from the snapshot of { a.txt = "hello", sub/b.txt = "world" },
    // then delete a.txt, change b.txt to "world!" and add c.txt = "new".
    let details = init();
    let old_root = FsTree {
        entries: vec![
            file("a.txt", b"hello"),
            dir("sub", vec![file("b.txt", b"world")]),
        ],
    };
    let (previous, _) = build_snapshot(&old_root, &details);

    let new_root = FsTree {
        entries: vec![
            dir("sub", vec![file("b.txt", b"world!")]),
            file("c.txt", b"new"),
        ],
    };
    let (snap, store) = reconcile_snapshot(Some(&previous), &new_root, &details);

    assert_eq!(snap.entries.len(), 2);
    assert!(snap.get(&"a.txt".to_string()).is_none());
    assert_eq!(file_hash(&snap, "c.txt"), NEW_SHA1);
    let sub = sub_snapshot(&snap, "sub");
    assert_eq!(file_hash(sub, "b.txt"), WORLD_BANG_SHA1);

    let hashes: Vec<String> = store_contents(&store).into_iter().map(|(h, _)| h).collect();
    assert_eq!(
        hashes,
        vec![WORLD_BANG_SHA1.to_string(), NEW_SHA1.to_string()]
    );
}

#[test]
fn build_is_idempotent() {
    let root = FsTree {
        entries: vec![
            file("a.txt", b"hello"),
            dir("sub", vec![file("b.txt", b"world"), dir("deeper", vec![])]),
        ],
    };
    let details = init();
    let (first, first_store) = build_snapshot(&root, &details);
    let (second, second_store) = build_snapshot(&root, &details);
    assert_eq!(first, second);
    assert_eq!(store_contents(&first_store), store_contents(&second_store));
}

#[test]
fn reconcile_without_previous_is_a_fresh_build() {
    let root = FsTree {
        entries: vec![file("a.txt", b"hello")],
    };
    let details = init();
    let (built, _) = build_snapshot(&root, &details);
    let (reconciled, _) = reconcile_snapshot(None, &root, &details);
    assert_eq!(built, reconciled);
}

#[test]
fn reconcile_reuses_unchanged_subdirectory() {
    // The subdirectory sub/ is untouched between the runs: the
    // reconciled snapshot for it equals the previous one, and its
    // file's hash is recomputed into the store.
    let details = init();
    let root = FsTree {
        entries: vec![
            file("a.txt", b"hello"),
            dir("sub", vec![file("b.txt", b"world")]),
        ],
    };
    let (previous, _) = build_snapshot(&root, &details);

    let rerun = FsTree {
        entries: vec![
            file("a.txt", b"hello again"),
            dir("sub", vec![file("b.txt", b"world")]),
        ],
    };
    let (snap, store) = reconcile_snapshot(Some(&previous), &rerun, &details);
    assert_eq!(sub_snapshot(&snap, "sub"), sub_snapshot(&previous, "sub"));
    let hashes: Vec<String> = store_contents(&store).into_iter().map(|(h, _)| h).collect();
    assert!(hashes.contains(&WORLD_SHA1.to_string()));
}

#[test]
fn deleted_name_is_dropped() {
    let details = init();
    let old_root = FsTree {
        entries: vec![file("x.txt", b"x"), file("kept.txt", b"hello")],
    };
    let (previous, _) = build_snapshot(&old_root, &details);
    assert!(previous.get(&"x.txt".to_string()).is_some());

    let new_root = FsTree {
        entries: vec![file("kept.txt", b"hello")],
    };
    let (snap, _) = reconcile_snapshot(Some(&previous), &new_root, &details);
    assert!(snap.get(&"x.txt".to_string()).is_none());
    assert_eq!(snap.entries.len(), 1);
}

#[test]
fn type_change_is_rebuilt_fresh() {
    let details = init();
    // "thing" was a file; now it is a directory.
    let old_root = FsTree {
        entries: vec![file("thing", b"hello")],
    };
    let (previous, _) = build_snapshot(&old_root, &details);

    let new_root = FsTree {
        entries: vec![dir("thing", vec![file("inner.txt", b"new")])],
    };
    let (snap, _) = reconcile_snapshot(Some(&previous), &new_root, &details);
    let sub = sub_snapshot(&snap, "thing");
    assert_eq!(file_hash(sub, "inner.txt"), NEW_SHA1);

    // And back: "thing" was a directory; now it is a file.
    let (previous, _) = build_snapshot(&new_root, &details);
    let (snap, _) = reconcile_snapshot(Some(&previous), &old_root, &details);
    assert_eq!(file_hash(&snap, "thing"), HELLO_SHA1);
}

#[test]
fn empty_directory_yields_empty_snapshot() {
    let details = init();
    let root = FsTree { entries: vec![] };
    let (snap, store) = build_snapshot(&root, &details);
    assert!(snap.entries.is_empty());
    assert_eq!(store.blob_count(), 0);
}

#[test]
fn empty_file_is_hashed() {
    let details = init();
    let root = FsTree {
        entries: vec![file("empty.txt", b"")],
    };
    let (snap, store) = build_snapshot(&root, &details);
    assert_eq!(file_hash(&snap, "empty.txt"), EMPTY_SHA1);
    assert_eq!(store.blob_count(), 1);
}

#[test]
fn duplicate_content_is_stored_once() {
    let details = init();
    let root = FsTree {
        entries: vec![
            file("one.txt", b"hello"),
            file("two.txt", b"hello"),
            dir("sub", vec![file("three.txt", b"hello")]),
        ],
    };
    let (snap, store) = build_snapshot(&root, &details);
    assert_eq!(file_hash(&snap, "one.txt"), HELLO_SHA1);
    assert_eq!(file_hash(&snap, "two.txt"), HELLO_SHA1);
    assert_eq!(store.blob_count(), 1);
}
