use syner::paths::{extension, file_name, has_remove_marker, is_valid_path, join_path, renamed_path};

#[test]
fn valid_paths_accepted() {
    assert!(is_valid_path("content"));
    assert!(is_valid_path("a/b/c"));
    assert!(is_valid_path("./content"));
}

#[test]
fn empty_segments_rejected() {
    assert!(!is_valid_path(""));
    assert!(!is_valid_path("/abs"));
    assert!(!is_valid_path("a/"));
    assert!(!is_valid_path("a//b"));
}

#[test]
fn nul_rejected() {
    assert!(!is_valid_path("a\0b"));
}

#[test]
fn extension_follows_last_dot() {
    assert_eq!(extension("b.txt"), Some("txt"));
    assert_eq!(extension("a.tar.gz"), Some("gz"));
    assert_eq!(extension("a."), Some(""));
    assert_eq!(extension("noext"), None);
    assert_eq!(extension(".hidden"), None);
    assert_eq!(extension(".."), None);
}

#[test]
fn file_name_is_last_segment() {
    assert_eq!(file_name("a/b/c.txt"), "c.txt");
    assert_eq!(file_name("c.txt"), "c.txt");
}

#[test]
fn remove_marker_matches_extension_only() {
    assert!(has_remove_marker("dir/old.del", "del"));
    assert!(!has_remove_marker("dir/old.del.txt", "del"));
    assert!(!has_remove_marker("dir.del/old", "del"));
    assert!(!has_remove_marker("dir/.del", "del"));
}

#[test]
fn renamed_path_appends_marker() {
    assert_eq!(renamed_path("w/a/b.txt", "del"), "w/a/b.txt.del");
    assert_eq!(renamed_path("w/a/b", "del"), "w/a/b..del");
}

#[test]
fn join_path_inserts_one_separator() {
    assert_eq!(join_path("./", "a/b.txt"), "./a/b.txt");
    assert_eq!(join_path("work", "a/b.txt"), "work/a/b.txt");
    assert_eq!(join_path("", "a"), "a");
}
