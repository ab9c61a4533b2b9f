use mobdev::dart::{
    dart_source_files, find_dart_package_root, find_file_package_root, is_dart_package,
    is_generated_dart_file, AbsPath,
};
use mobdev::fileset::FileSet;

fn path(parts: &[&str]) -> AbsPath {
    AbsPath { components: parts.iter().map(|part| part.to_string()).collect() }
}

#[test]
fn test_is_generated_dart_file() {
    assert!(is_generated_dart_file("model.g.dart"));
    assert!(is_generated_dart_file("freezed.freezed.dart"));
    assert!(!is_generated_dart_file("normal.dart"));
}

#[test]
fn generated_suffixes_cover_all_four_kinds() {
    assert!(is_generated_dart_file("routes.gr.dart"));
    assert!(is_generated_dart_file("query.gql.dart"));
    assert!(!is_generated_dart_file("g.dart"));
    assert!(!is_generated_dart_file(""));
}

#[test]
fn dart_source_filter_keeps_the_invariant() {
    let raw = vec![
        "a.dart".to_string(),
        "b.g.dart".to_string(),
        "c.txt".to_string(),
        "d.dart".to_string(),
    ];
    let files = FileSet::from_lines(&raw);
    let sources = dart_source_files(&files);
    assert_eq!(sources.entries, vec!["a.dart".to_string(), "d.dart".to_string()]);
    for window in sources.entries.windows(2) {
        assert!(window[0] < window[1]);
    }
}

#[test]
fn package_root_walks_to_the_marked_ancestor() {
    // a marker only at `a`: the walk from `a/b/c` ends at `a`, the walk
    // from `x/y` finds nothing
    let marked = vec![path(&["a"])];
    let found = find_dart_package_root(&path(&["a", "b", "c"]), &marked).unwrap();
    assert_eq!(found.components, vec!["a".to_string()]);
    assert!(find_dart_package_root(&path(&["x", "y"]), &marked).is_none());
}

#[test]
fn package_root_prefers_the_nearest_marker() {
    let marked = vec![path(&["a"]), path(&["a", "b"])];
    let found = find_dart_package_root(&path(&["a", "b", "c"]), &marked).unwrap();
    assert_eq!(found.components, vec!["a".to_string(), "b".to_string()]);
    let start_is_marked = find_dart_package_root(&path(&["a", "b"]), &marked).unwrap();
    assert_eq!(start_is_marked.components, vec!["a".to_string(), "b".to_string()]);
}

#[test]
fn package_check_follows_the_walk() {
    let marked = vec![path(&["pkg"])];
    assert!(is_dart_package(&path(&["pkg", "lib"]), &marked));
    assert!(!is_dart_package(&path(&["other"]), &marked));
}

#[test]
fn file_package_root_starts_at_the_parent() {
    let marked = vec![path(&["a"])];
    let found = find_file_package_root(&path(&["a", "lib", "main.dart"]), &marked).unwrap();
    assert_eq!(found.components, vec!["a".to_string()]);
    // a path without components has no parent directory to start from
    assert!(find_file_package_root(&path(&[]), &marked).is_none());
    // the file's own name is not tested for the marker
    let marked_leaf = vec![path(&["a", "lib", "main.dart"])];
    assert!(find_file_package_root(&path(&["a", "lib", "main.dart"]), &marked_leaf).is_none());
}
