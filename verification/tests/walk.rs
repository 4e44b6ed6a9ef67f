use env_yoink::walk::{is_hidden, list_files, EntryKind, FileEntry};

fn file(index: usize, name: &str, depth: usize) -> FileEntry {
    FileEntry { index, name: name.as_bytes().to_vec(), depth, kind: EntryKind::File }
}

fn dir(index: usize, name: &str, depth: usize) -> FileEntry {
    FileEntry { index, name: name.as_bytes().to_vec(), depth, kind: EntryKind::Other }
}

fn indices(files: &[FileEntry]) -> Vec<usize> {
    files.iter().map(|f| f.index).collect()
}

#[test]
fn name_with_a_leading_dot_is_hidden() {
    assert!(is_hidden(b".git"));
    assert!(is_hidden(b".env"));
    assert!(is_hidden(b"."));
    assert!(is_hidden(b".."));
}

#[test]
fn other_names_are_not_hidden() {
    assert!(!is_hidden(b"src"));
    assert!(!is_hidden(b"a.b"));
    assert!(!is_hidden(b"dot."));
    assert!(!is_hidden(b""));
    assert!(!is_hidden("\u{e9}.txt".as_bytes()));
}

#[test]
fn dot_name_that_is_not_text_is_hidden() {
    assert!(is_hidden(b".\xff"));
    assert!(!is_hidden(b"\xff.x"));
    let entry = FileEntry { index: 1, name: b".\xff".to_vec(), depth: 1, kind: EntryKind::File };
    assert!(entry.is_hidden());
    let files = list_files(vec![dir(0, "ws", 0), entry, file(2, "a", 1)]);
    assert_eq!(indices(&files), vec![2]);
}

#[test]
fn name_that_is_not_text_and_has_no_dot_is_shown() {
    let entry = FileEntry { index: 1, name: b"\xff\xfe".to_vec(), depth: 1, kind: EntryKind::File };
    assert!(!entry.is_hidden());
    let files = list_files(vec![dir(0, "ws", 0), entry]);
    assert_eq!(indices(&files), vec![1]);
}

#[test]
fn list_files_keeps_regular_files_only() {
    let files = list_files(vec![
        dir(0, "ws", 0),
        file(1, "a.js", 1),
        dir(2, "src", 1),
        file(3, "b.js", 2),
        dir(4, "link", 1),
    ]);
    assert_eq!(indices(&files), vec![1, 3]);
}

#[test]
fn entry_of_unknown_kind_is_left_out() {
    let broken = FileEntry { index: 1, name: b"broken".to_vec(), depth: 1, kind: EntryKind::Unknown };
    let files = list_files(vec![dir(0, "ws", 0), broken, file(2, "a.js", 1)]);
    assert_eq!(indices(&files), vec![2]);
}

#[test]
fn file_in_a_hidden_directory_is_left_out() {
    let files = list_files(vec![
        dir(0, "ws", 0),
        dir(1, ".git", 1),
        file(2, "config", 2),
        dir(3, "hooks", 2),
        file(4, "pre-commit", 3),
        dir(5, "src", 1),
        file(6, "main.js", 2),
    ]);
    assert_eq!(indices(&files), vec![6]);
}

#[test]
fn hidden_file_is_left_out() {
    let files = list_files(vec![dir(0, "ws", 0), file(1, ".env", 1), file(2, "README", 1)]);
    assert_eq!(indices(&files), vec![2]);
}

#[test]
fn pruning_ends_where_the_hidden_tree_ends() {
    let files = list_files(vec![
        dir(0, "ws", 0),
        dir(1, "a", 1),
        dir(2, ".cache", 2),
        file(3, "x", 3),
        file(4, "y", 2),
        file(5, "z", 1),
    ]);
    assert_eq!(indices(&files), vec![4, 5]);
}

#[test]
fn hidden_tree_inside_a_hidden_tree_stays_pruned() {
    let files = list_files(vec![
        dir(0, "ws", 0),
        dir(1, ".a", 1),
        dir(2, ".b", 2),
        file(3, "x", 3),
        file(4, "y", 2),
        file(5, "z", 1),
    ]);
    assert_eq!(indices(&files), vec![5]);
}

#[test]
fn hidden_root_leaves_nothing() {
    let files = list_files(vec![
        dir(0, ".", 0),
        file(1, "main.js", 1),
        dir(2, "src", 1),
        file(3, "lib.js", 2),
    ]);
    assert!(files.is_empty());
}

#[test]
fn missing_root_yields_no_files() {
    assert!(list_files(Vec::new()).is_empty());
}

#[test]
fn root_that_is_a_file_yields_no_files() {
    assert!(list_files(vec![file(0, "app.js", 0)]).is_empty());
}

#[test]
fn listed_entries_are_handed_on_unchanged() {
    let files = list_files(vec![dir(7, "ws", 0), file(9, "a", 1)]);
    assert_eq!(files.len(), 1);
    assert_eq!(files[0].index, 9);
    assert_eq!(files[0].name, b"a".to_vec());
    assert_eq!(files[0].depth, 1);
    assert_eq!(files[0].kind, EntryKind::File);
}
