use mobdev::fileset::FileSet;
use mobdev::files::{filter_files_by_suffix, line_matches_suffix, suffix};

fn lines(parts: &[&str]) -> Vec<String> {
    parts.iter().map(|part| part.to_string()).collect()
}

#[test]
fn test_filter_basic() {
    let suffixes = vec![".g.dart".to_string()];
    assert!(!suffixes.is_empty());
}

#[test]
fn filter_suffix_drops_matching_lines() {
    let input = lines(&["file1.dart", "file2.g.dart", "file3.dart"]);
    let suffixes = lines(&[".g.dart"]);
    let outcome = suffix(&input, &suffixes);
    assert_eq!(outcome.kept, lines(&["file1.dart", "file3.dart"]));
    assert_eq!(outcome.total_count, 3);
    assert_eq!(outcome.filtered_count, 1);
}

#[test]
fn filter_counts_split_and_order_is_kept() {
    let input = lines(&["z.freezed.dart", "a.dart", "z.dart", "b.g.dart", "a.dart"]);
    let suffixes = lines(&[".g.dart", ".freezed.dart"]);
    let outcome = filter_files_by_suffix(&input, &suffixes);
    // input order is preserved exactly: no reordering, no deduplication
    assert_eq!(outcome.kept, lines(&["a.dart", "z.dart", "a.dart"]));
    assert_eq!(outcome.total_count, outcome.kept.len() + outcome.filtered_count);
    assert_eq!(outcome.total_count, 5);
    assert_eq!(outcome.filtered_count, 2);
}

#[test]
fn filter_with_no_suffixes_keeps_everything() {
    let input = lines(&["a", "b"]);
    let outcome = filter_files_by_suffix(&input, &Vec::new());
    assert_eq!(outcome.kept, input);
    assert_eq!(outcome.filtered_count, 0);
}

#[test]
fn one_line_at_a_time_matches_the_list_pass() {
    let suffixes = lines(&[".g.dart"]);
    assert!(line_matches_suffix("model.g.dart", &suffixes));
    assert!(!line_matches_suffix("model.dart", &suffixes));
    assert!(!line_matches_suffix("", &suffixes));
}

#[test]
fn from_lines_canonicalizes() {
    let input = lines(&["b", "a", "", "b", "a"]);
    let set = FileSet::from_lines(&input);
    assert_eq!(set.entries, lines(&["a", "b"]));
    assert_eq!(set.len(), 2);
}
