//! Repository queries and change-set resolution.  The version-control
//! subprocess is run by the calling layer; each function here takes the
//! completed query answers as plain values and is verified for every
//! possible answer.

use vstd::prelude::*;
use crate::errors::Error;
use crate::fileset::{FileSet, canon, lemma_canon_union};
use crate::text::{split_lines, split_lines_spec, trim, trim_spec};

verus! {

/// One completed subprocess query: whether it exited successfully, and its
/// decoded standard output.  `None` in the places below stands for a query
/// whose process could not be run at all, or whose output was not valid
/// text.
#[derive(Debug, PartialEq, Eq)]
pub struct QueryResult {
    /// Whether the subprocess exited with status zero.
    pub ok: bool,
    /// The decoded standard output of the subprocess.
    pub output: String,
}

/// Whether the membership query answered "inside a working tree": it ran,
/// exited successfully, and printed `true`.
pub open spec fn is_repo_spec(q: Option<QueryResult>) -> bool {
    q matches Some(r) && r.ok && trim_spec(r.output@) == "true"@
}

/// Checks whether a directory is inside a repository, from the answer to
/// the working-tree membership query.  Never fails: every failure mode
/// collapses to `false`.
pub fn is_git_repo(q: &Option<QueryResult>) -> (r: bool)
    ensures
        r == is_repo_spec(*q),
{
    match q {
        Some(res) => {
            if res.ok {
                let t = trim(res.output.as_str());
                t.eq(&String::from_str("true"))
            } else {
                false
            }
        },
        None => false,
    }
}

/// The repository root the toplevel query reports: its trimmed output on
/// success, `NotARepository` when the query exited nonzero, and
/// `GitQueryFailed` when it could not be run.
pub open spec fn repo_root_spec(q: Option<QueryResult>) -> Result<Seq<char>, Error> {
    match q {
        None => Err(Error::GitQueryFailed),
        Some(r) => if r.ok {
            Ok(trim_spec(r.output@))
        } else {
            Err(Error::NotARepository)
        },
    }
}

/// Resolves the root directory of the repository from the answer to the
/// toplevel query.
pub fn get_git_root(q: &Option<QueryResult>) -> (r: Result<String, Error>)
    ensures
        r matches Ok(root) ==> repo_root_spec(*q) == Ok::<Seq<char>, Error>(root@),
        r matches Err(e) ==> repo_root_spec(*q) == Err::<Seq<char>, Error>(e),
{
    match q {
        None => Err(Error::GitQueryFailed),
        Some(res) => {
            if res.ok {
                Ok(trim(res.output.as_str()))
            } else {
                Err(Error::NotARepository)
            }
        },
    }
}

/// The branch name the abbreviated-ref query reports: its trimmed output
/// on success, `GitQueryFailed` otherwise.
pub open spec fn branch_spec(q: Option<QueryResult>) -> Result<Seq<char>, Error> {
    match q {
        None => Err(Error::GitQueryFailed),
        Some(r) => if r.ok {
            Ok(trim_spec(r.output@))
        } else {
            Err(Error::GitQueryFailed)
        },
    }
}

/// Resolves the current branch name from the answer to the abbreviated-ref
/// query on the current head.
pub fn get_current_branch(q: &Option<QueryResult>) -> (r: Result<String, Error>)
    ensures
        r matches Ok(name) ==> branch_spec(*q) == Ok::<Seq<char>, Error>(name@),
        r matches Err(e) ==> branch_spec(*q) == Err::<Seq<char>, Error>(e),
{
    match q {
        None => Err(Error::GitQueryFailed),
        Some(res) => {
            if res.ok {
                Ok(trim(res.output.as_str()))
            } else {
                Err(Error::GitQueryFailed)
            }
        },
    }
}

/// Checks whether the current branch is the given main branch: an equality
/// check against the resolved branch name.
pub fn is_main_branch(q: &Option<QueryResult>, main_branch: &str) -> (r: Result<bool, Error>)
    ensures
        r matches Ok(b) ==> branch_spec(*q) matches Ok(cur) && b == (cur == main_branch@),
        r matches Err(e) ==> branch_spec(*q) == Err::<Seq<char>, Error>(e),
{
    match get_current_branch(q) {
        Err(e) => Err(e),
        Ok(cur) => Ok(cur.eq(&String::from_str(main_branch))),
    }
}

/// The file list a diff query yields: its output split into lines when it
/// succeeded; a diff that exited nonzero reports no files rather than an
/// error.
pub open spec fn diff_lines_spec(r: QueryResult) -> Seq<Seq<char>> {
    if r.ok {
        split_lines_spec(r.output@)
    } else {
        Seq::empty()
    }
}

/// Collects the raw file list of one diff query, in output order.
fn git_diff_files(q: &Option<QueryResult>) -> (r: Result<Vec<String>, Error>)
    ensures
        match r {
            Ok(lines) => *q matches Some(qr) && lines.deep_view() == diff_lines_spec(qr),
            Err(e) => *q is None && e == Error::GitQueryFailed,
        },
{
    match q {
        None => Err(Error::GitQueryFailed),
        Some(res) => {
            if res.ok {
                Ok(split_lines(res.output.as_str()))
            } else {
                let empty: Vec<String> = Vec::new();
                proof {
                    assert(empty.deep_view() =~= Seq::<Seq<char>>::empty());
                }
                Ok(empty)
            }
        },
    }
}

/// The comparison scope of one change-set query.  Exactly one scope is
/// active per query; `All` is the default when no scope flag is given.
#[derive(Debug, Clone, Copy, PartialEq, Eq, Structural)]
pub enum ChangeScope {
    /// The index against the current head.
    Staged,
    /// The working tree against the index.
    Unstaged,
    /// Commits on the current branch that are not on the base branch.
    Committed,
    /// The union of `Committed`, `Staged` and `Unstaged`.
    All,
    /// Commits not yet pushed to the upstream tracking ref.
    PendingPush,
}

/// How the calling layer's boolean flags collapse to one scope: `All` when
/// the all flag is set or no flag is set; otherwise the staged flag wins
/// over the unstaged flag.
pub open spec fn scope_from_flags_spec(staged: bool, unstaged: bool, all: bool) -> ChangeScope {
    if all || (!staged && !unstaged) {
        ChangeScope::All
    } else if staged {
        ChangeScope::Staged
    } else {
        ChangeScope::Unstaged
    }
}

/// Collapses the scope flags to the one active scope.
pub fn scope_from_flags(staged: bool, unstaged: bool, all: bool) -> (s: ChangeScope)
    ensures
        s == scope_from_flags_spec(staged, unstaged, all),
{
    if all || (!staged && !unstaged) {
        ChangeScope::All
    } else if staged {
        ChangeScope::Staged
    } else {
        ChangeScope::Unstaged
    }
}

/// The answers to the subprocess queries one change-set resolution may
/// consult.  A query that was not run is `None`; only the queries the
/// active scope reads decide the result.
#[derive(Debug, PartialEq, Eq)]
pub struct ChangeQueries {
    /// Diff of the base branch against the current head (three-dot).
    pub committed: Option<QueryResult>,
    /// Diff of the index against the current head.
    pub staged: Option<QueryResult>,
    /// Diff of the working tree against the index.
    pub unstaged: Option<QueryResult>,
    /// The abbreviated-ref query for the upstream tracking ref.
    pub upstream: Option<QueryResult>,
    /// Diff of the upstream tracking ref against the current head.
    pub pending: Option<QueryResult>,
}

/// The files pending push: `NoUpstreamBranch` when no upstream tracking
/// ref is configured, otherwise the canonicalized upstream diff.
pub open spec fn pending_push_spec(q: ChangeQueries) -> Result<Seq<Seq<char>>, Error> {
    match q.upstream {
        None => Err(Error::GitQueryFailed),
        Some(u) => if !u.ok {
            Err(Error::NoUpstreamBranch)
        } else {
            match q.pending {
                None => Err(Error::GitQueryFailed),
                Some(p) => Ok(canon(diff_lines_spec(p))),
            }
        },
    }
}

/// What one change-set resolution returns: for each scope, the canonical
/// form (sorted, deduplicated, empty lines dropped) of the lines of the
/// diff queries that scope reads.
pub open spec fn resolve_spec(scope: ChangeScope, q: ChangeQueries) -> Result<
    Seq<Seq<char>>,
    Error,
> {
    match scope {
        ChangeScope::Staged => match q.staged {
            None => Err(Error::GitQueryFailed),
            Some(r) => Ok(canon(diff_lines_spec(r))),
        },
        ChangeScope::Unstaged => match q.unstaged {
            None => Err(Error::GitQueryFailed),
            Some(r) => Ok(canon(diff_lines_spec(r))),
        },
        ChangeScope::Committed => match q.committed {
            None => Err(Error::GitQueryFailed),
            Some(r) => Ok(canon(diff_lines_spec(r))),
        },
        ChangeScope::All => if q.committed is None || q.staged is None || q.unstaged is None {
            Err(Error::GitQueryFailed)
        } else {
            Ok(
                canon(
                    diff_lines_spec(q.committed.unwrap()) + diff_lines_spec(q.staged.unwrap())
                        + diff_lines_spec(q.unstaged.unwrap()),
                ),
            )
        },
        ChangeScope::PendingPush => pending_push_spec(q),
    }
}

/// Produces the `FileSet` of one scope from the query answers.
pub fn resolve(scope: ChangeScope, q: &ChangeQueries) -> (r: Result<FileSet, Error>)
    ensures
        r matches Ok(fs) ==> resolve_spec(scope, *q) == Ok::<Seq<Seq<char>>, Error>(fs@)
            && fs.wf(),
        r matches Err(e) ==> resolve_spec(scope, *q) == Err::<Seq<Seq<char>>, Error>(e),
{
    match scope {
        ChangeScope::Staged => match git_diff_files(&q.staged) {
            Err(e) => Err(e),
            Ok(lines) => Ok(FileSet::from_lines(&lines)),
        },
        ChangeScope::Unstaged => match git_diff_files(&q.unstaged) {
            Err(e) => Err(e),
            Ok(lines) => Ok(FileSet::from_lines(&lines)),
        },
        ChangeScope::Committed => match git_diff_files(&q.committed) {
            Err(e) => Err(e),
            Ok(lines) => Ok(FileSet::from_lines(&lines)),
        },
        ChangeScope::All => match (
            git_diff_files(&q.committed),
            git_diff_files(&q.staged),
            git_diff_files(&q.unstaged),
        ) {
            (Ok(c_lines), Ok(s_lines), Ok(u_lines)) => {
                let mut lines = c_lines;
                let mut s_lines = s_lines;
                let mut u_lines = u_lines;
                let ghost c_view = lines.deep_view();
                let ghost s_view = s_lines.deep_view();
                let ghost u_view = u_lines.deep_view();
                lines.append(&mut s_lines);
                proof {
                    assert(lines.deep_view() =~= c_view + s_view);
                }
                lines.append(&mut u_lines);
                proof {
                    assert(lines.deep_view() =~= (c_view + s_view) + u_view);
                }
                Ok(FileSet::from_lines(&lines))
            },
            (Err(e), _, _) => Err(e),
            (_, Err(e), _) => Err(e),
            (_, _, Err(e)) => Err(e),
        },
        ChangeScope::PendingPush => match &q.upstream {
            None => Err(Error::GitQueryFailed),
            Some(u) => {
                if !u.ok {
                    Err(Error::NoUpstreamBranch)
                } else {
                    match git_diff_files(&q.pending) {
                        Err(e) => Err(e),
                        Ok(lines) => Ok(FileSet::from_lines(&lines)),
                    }
                }
            },
        },
    }
}

/// Resolves the changed files for the given scope flags: the union of the
/// committed, staged and unstaged diffs by default, a single diff when one
/// flag selects it.
pub fn get_changed_files(q: &ChangeQueries, staged: bool, unstaged: bool, all: bool) -> (r: Result<
    FileSet,
    Error,
>)
    ensures
        r matches Ok(fs) ==> resolve_spec(scope_from_flags_spec(staged, unstaged, all), *q)
            == Ok::<Seq<Seq<char>>, Error>(fs@) && fs.wf(),
        r matches Err(e) ==> resolve_spec(scope_from_flags_spec(staged, unstaged, all), *q)
            == Err::<Seq<Seq<char>>, Error>(e),
{
    let scope = scope_from_flags(staged, unstaged, all);
    resolve(scope, q)
}

/// Resolves the files that would be pushed to the upstream tracking ref;
/// fails with `NoUpstreamBranch` when none is configured.
pub fn get_files_to_push(q: &ChangeQueries) -> (r: Result<FileSet, Error>)
    ensures
        r matches Ok(fs) ==> pending_push_spec(*q) == Ok::<Seq<Seq<char>>, Error>(fs@)
            && fs.wf(),
        r matches Err(e) ==> pending_push_spec(*q) == Err::<Seq<Seq<char>>, Error>(e),
{
    resolve(ChangeScope::PendingPush, q)
}

/// Resolving `All` always yields exactly the deduplicated sorted union of
/// what `Committed`, `Staged` and `Unstaged` resolve to.
pub proof fn lemma_resolve_all_is_union(q: ChangeQueries)
    requires
        resolve_spec(ChangeScope::All, q) is Ok,
    ensures
        resolve_spec(ChangeScope::Committed, q) is Ok,
        resolve_spec(ChangeScope::Staged, q) is Ok,
        resolve_spec(ChangeScope::Unstaged, q) is Ok,
        resolve_spec(ChangeScope::All, q) == Ok::<Seq<Seq<char>>, Error>(
            canon(
                resolve_spec(ChangeScope::Committed, q).unwrap() + resolve_spec(
                    ChangeScope::Staged,
                    q,
                ).unwrap() + resolve_spec(ChangeScope::Unstaged, q).unwrap(),
            ),
        ),
{
    lemma_canon_union(
        diff_lines_spec(q.committed.unwrap()),
        diff_lines_spec(q.staged.unwrap()),
        diff_lines_spec(q.unstaged.unwrap()),
    );
}

} // verus!
