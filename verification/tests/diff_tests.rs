use vcs_snapshot::diff::{compare_files, DiffCommand};

fn copy(line: &[u8]) -> DiffCommand {
    DiffCommand::Copy(line.to_vec())
}

fn add(line: &[u8]) -> DiffCommand {
    DiffCommand::Add(line.to_vec())
}

#[test]
fn identical_contents_are_all_copies() {
    let commands = compare_files(&b"a\nb".to_vec(), &b"a\nb".to_vec());
    assert_eq!(commands, vec![copy(b"a"), copy(b"b")]);
}

#[test]
fn changed_line_is_added() {
    let commands = compare_files(&b"a\nb\nc".to_vec(), &b"a\nx\nc".to_vec());
    // Positional comparison: after the mismatch at "x" the old cursor
    // stays on "b", so "c" is compared against "b" and added too.
    assert_eq!(commands, vec![copy(b"a"), add(b"x"), add(b"c")]);
}

#[test]
fn extra_new_lines_are_added_at_the_end() {
    let commands = compare_files(&b"a".to_vec(), &b"a\nb\nc".to_vec());
    assert_eq!(commands, vec![copy(b"a"), add(b"b"), add(b"c")]);
}

#[test]
fn removed_old_lines_are_silently_dropped() {
    let commands = compare_files(&b"a\nb\nc".to_vec(), &b"a".to_vec());
    assert_eq!(commands, vec![copy(b"a")]);
}

#[test]
fn a_leading_deletion_shifts_everything() {
    // The comparison never advances the old cursor on a mismatch: one
    // line removed from the front leaves the old cursor stuck on it,
    // so every remaining new line is reported as an add.
    let commands = compare_files(&b"zero\na\nb".to_vec(), &b"a\nb".to_vec());
    assert_eq!(commands, vec![add(b"a"), add(b"b")]);
}

#[test]
fn trailing_newline_makes_an_empty_line() {
    let commands = compare_files(&b"a\n".to_vec(), &b"a\n".to_vec());
    assert_eq!(commands, vec![copy(b"a"), copy(b"")]);
}

#[test]
fn empty_contents_compare_as_one_empty_line() {
    let commands = compare_files(&b"".to_vec(), &b"".to_vec());
    assert_eq!(commands, vec![copy(b"")]);
}
