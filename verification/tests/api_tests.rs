use vcs_snapshot::config::init;
use vcs_snapshot::diff::{Diff, Line, Version};
use vcs_snapshot::fs_tree::{get_current_dir_entities, FsChild, FsNode, FsTree};
use vcs_snapshot::ignore::{is_ignored, read_ignore_file};
use vcs_snapshot::snapshot::build_snapshot;

fn file(name: &str, content: &[u8]) -> FsChild {
    FsChild {
        name: name.to_string(),
        node: FsNode::File(content.to_vec()),
    }
}

#[test]
fn default_configuration_paths() {
    let details = init();
    assert_eq!(details.version_control_system_folder, "version_control_system");
    assert_eq!(
        details.version_control_system_objects_folder,
        "version_control_system/objects"
    );
    assert_eq!(
        details.version_control_system_config_folder,
        "version_control_system/config"
    );
    assert_eq!(details.struct_file_path, "version_control_system/config/struct.json");
    assert_eq!(details.config_file_path, "version_control_system/config/config.txt");
    assert_eq!(details.ignore_file_name, ".vcs.ignore");
    assert_eq!(details.working_folder, "test_fold");
}

#[test]
fn dir_entities_lists_files_and_directories_alike() {
    let tree = FsTree {
        entries: vec![
            file("plain.txt", b"hello"),
            FsChild {
                name: "nested".to_string(),
                node: FsNode::Dir(FsTree { entries: vec![] }),
            },
        ],
    };
    let names = get_current_dir_entities(&tree);
    assert_eq!(names, vec!["plain.txt".to_string(), "nested".to_string()]);
}

#[test]
fn ignore_rules_handle_unicode_names() {
    let rules = read_ignore_file("caf\u{e9}\n/\u{3000}wide\u{3000}\n");
    assert!(is_ignored("caf\u{e9}", &rules));
    // A leading slash keeps the rest of the line untrimmed.
    assert!(is_ignored("\u{3000}wide\u{3000}", &rules));
    assert!(!is_ignored("wide", &rules));
}

#[test]
fn unicode_whitespace_counts_as_blank() {
    // An ideographic space alone is a blank line, not a rule.
    let rules = read_ignore_file("\u{3000}\n\u{a0}\u{a0}\n");
    assert!(!is_ignored("\u{3000}", &rules));
    assert!(!is_ignored("", &rules));
}

#[test]
fn unicode_file_names_are_snapshotted() {
    let details = init();
    let root = FsTree {
        entries: vec![file("r\u{e9}sum\u{e9}.txt", b"hello")],
    };
    let (snap, _) = build_snapshot(&root, &details);
    assert!(snap.get(&"r\u{e9}sum\u{e9}.txt".to_string()).is_some());
}

#[test]
fn version_records_hash_and_diff() {
    let version = Version {
        hash_value: "aaf4c61ddcc5e8a2dabede0f3b482cd9aea9434d".to_string(),
        diff_from_previous: Diff {
            added: Some(vec![Line {
                line_number: 1,
                content: "hello".to_string(),
            }]),
            removed: None,
        },
    };
    assert_eq!(version.hash_value.len(), 40);
    let added = version.diff_from_previous.added.unwrap();
    assert_eq!(added.len(), 1);
    assert_eq!(added[0].line_number, 1);
    assert_eq!(added[0].content, "hello");
}
