use mobdev::errors::Error;
use mobdev::git::{
    get_changed_files, get_current_branch, get_files_to_push, get_git_root, is_git_repo,
    is_main_branch, resolve, scope_from_flags, ChangeQueries, ChangeScope, QueryResult,
};

fn q(ok: bool, output: &str) -> Option<QueryResult> {
    Some(QueryResult { ok, output: output.to_string() })
}

fn no_queries() -> ChangeQueries {
    ChangeQueries { committed: None, staged: None, unstaged: None, upstream: None, pending: None }
}

#[test]
fn test_is_git_repo() {
    // With no query answer at hand the check must simply answer false.
    let result = is_git_repo(&None);
    let _ = result;
}

#[test]
fn repo_check_reads_the_membership_answer() {
    assert!(is_git_repo(&q(true, "true\n")));
    assert!(!is_git_repo(&q(true, "false\n")));
    assert!(!is_git_repo(&q(false, "true\n")));
    assert!(!is_git_repo(&None));
}

#[test]
fn repo_root_is_the_trimmed_output() {
    assert_eq!(get_git_root(&q(true, "/work/repo\n")).unwrap(), "/work/repo");
    assert_eq!(get_git_root(&q(false, "")), Err(Error::NotARepository));
    assert_eq!(get_git_root(&None), Err(Error::GitQueryFailed));
}

#[test]
fn current_branch_is_the_trimmed_output() {
    assert_eq!(get_current_branch(&q(true, "feature/x\n")).unwrap(), "feature/x");
    assert_eq!(get_current_branch(&q(false, "")), Err(Error::GitQueryFailed));
    assert_eq!(get_current_branch(&None), Err(Error::GitQueryFailed));
}

#[test]
fn trimming_strips_unicode_whitespace() {
    assert_eq!(get_current_branch(&q(true, "\u{00A0}main\u{3000}\n")).unwrap(), "main");
}

#[test]
fn main_branch_check_is_an_equality_check() {
    assert_eq!(is_main_branch(&q(true, "main\n"), "main"), Ok(true));
    assert_eq!(is_main_branch(&q(true, "feature/x\n"), "main"), Ok(false));
    assert_eq!(is_main_branch(&q(false, ""), "main"), Err(Error::GitQueryFailed));
}

#[test]
fn changed_files_union_is_sorted_and_deduplicated() {
    let queries = ChangeQueries {
        committed: q(true, "src/b.dart\nsrc/a.dart\n"),
        staged: q(true, "src/c.dart\nsrc/a.dart\n"),
        unstaged: q(true, "src/d.dart\n\n"),
        upstream: None,
        pending: None,
    };
    let files = get_changed_files(&queries, false, false, false).unwrap();
    assert_eq!(
        files.entries,
        vec![
            "src/a.dart".to_string(),
            "src/b.dart".to_string(),
            "src/c.dart".to_string(),
            "src/d.dart".to_string(),
        ]
    );
}

#[test]
fn resolve_all_equals_the_union_of_the_three_scopes() {
    let queries = ChangeQueries {
        committed: q(true, "b\na\n"),
        staged: q(true, "c\na\n"),
        unstaged: q(true, "d\nb\n"),
        upstream: None,
        pending: None,
    };
    let all = resolve(ChangeScope::All, &queries).unwrap();
    let committed = resolve(ChangeScope::Committed, &queries).unwrap();
    let staged = resolve(ChangeScope::Staged, &queries).unwrap();
    let unstaged = resolve(ChangeScope::Unstaged, &queries).unwrap();

    let mut union: Vec<String> = Vec::new();
    union.extend(committed.entries.iter().cloned());
    union.extend(staged.entries.iter().cloned());
    union.extend(unstaged.entries.iter().cloned());
    union.sort();
    union.dedup();
    assert_eq!(all.entries, union);
}

#[test]
fn file_sets_hold_no_duplicates_no_empties_and_ascend() {
    let queries = ChangeQueries {
        committed: q(true, "b\n\na\nb\na\n"),
        staged: q(true, ""),
        unstaged: q(true, "\n\n"),
        upstream: None,
        pending: None,
    };
    let files = get_changed_files(&queries, false, false, true).unwrap();
    assert_eq!(files.entries, vec!["a".to_string(), "b".to_string()]);
    for window in files.entries.windows(2) {
        assert!(window[0] < window[1]);
    }
    assert!(files.entries.iter().all(|entry| !entry.is_empty()));
}

#[test]
fn scope_flags_pick_one_diff() {
    let queries = ChangeQueries {
        committed: q(true, "committed.dart\n"),
        staged: q(true, "staged.dart\n"),
        unstaged: q(true, "unstaged.dart\n"),
        upstream: None,
        pending: None,
    };
    let staged = get_changed_files(&queries, true, false, false).unwrap();
    assert_eq!(staged.entries, vec!["staged.dart".to_string()]);
    let unstaged = get_changed_files(&queries, false, true, false).unwrap();
    assert_eq!(unstaged.entries, vec!["unstaged.dart".to_string()]);
    // both flags at once: the staged flag wins
    let both = get_changed_files(&queries, true, true, false).unwrap();
    assert_eq!(both.entries, vec!["staged.dart".to_string()]);
}

#[test]
fn a_failed_diff_reports_no_files() {
    let queries = ChangeQueries {
        committed: q(false, "ignored\n"),
        staged: q(true, "staged.dart\n"),
        unstaged: q(true, ""),
        upstream: None,
        pending: None,
    };
    let files = get_changed_files(&queries, false, false, true).unwrap();
    assert_eq!(files.entries, vec!["staged.dart".to_string()]);
}

#[test]
fn a_missing_query_fails_the_resolution() {
    let queries = no_queries();
    assert_eq!(
        get_changed_files(&queries, false, false, true).unwrap_err(),
        Error::GitQueryFailed
    );
    assert_eq!(
        resolve(ChangeScope::Staged, &queries).unwrap_err(),
        Error::GitQueryFailed
    );
}

#[test]
fn flags_collapse_to_one_scope_with_all_as_default() {
    assert_eq!(scope_from_flags(false, false, false), ChangeScope::All);
    assert_eq!(scope_from_flags(false, false, true), ChangeScope::All);
    assert_eq!(scope_from_flags(true, true, true), ChangeScope::All);
    assert_eq!(scope_from_flags(true, false, false), ChangeScope::Staged);
    assert_eq!(scope_from_flags(false, true, false), ChangeScope::Unstaged);
    assert_eq!(scope_from_flags(true, true, false), ChangeScope::Staged);
}

#[test]
fn files_pending_push_without_upstream_is_an_error() {
    let mut queries = no_queries();
    queries.upstream = q(false, "");
    queries.pending = q(true, "a.dart\n");
    assert_eq!(get_files_to_push(&queries).unwrap_err(), Error::NoUpstreamBranch);
}

#[test]
fn files_pending_push_lists_the_upstream_diff() {
    let queries = ChangeQueries {
        committed: None,
        staged: None,
        unstaged: None,
        upstream: q(true, "origin/main\n"),
        pending: q(true, "lib/b.dart\nlib/a.dart\n"),
    };
    let files = get_files_to_push(&queries).unwrap();
    assert_eq!(files.entries, vec!["lib/a.dart".to_string(), "lib/b.dart".to_string()]);

    let mut unreachable_upstream = no_queries();
    unreachable_upstream.pending = q(true, "");
    assert_eq!(get_files_to_push(&unreachable_upstream).unwrap_err(), Error::GitQueryFailed);
}
