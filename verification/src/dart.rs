//! Package boundaries: finding the nearest ancestor directory that holds
//! the package marker file, and telling generated sources from written
//! ones.  The filesystem is consulted by the calling layer; the walk here
//! is over a path and the set of directories known to hold the marker.

use vstd::prelude::*;
use crate::fileset::{strictly_sorted, FileSet};
use crate::text::{ends_with_spec, str_ends_with};

verus! {

/// An absolute filesystem path, as its sequence of components below the
/// root; the empty sequence is the root itself.
#[derive(Debug, PartialEq, Eq)]
pub struct AbsPath {
    pub components: Vec<String>,
}

impl View for AbsPath {
    type V = Seq<Seq<char>>;

    open spec fn view(&self) -> Seq<Seq<char>> {
        self.components.deep_view()
    }
}

impl DeepView for AbsPath {
    type V = Seq<Seq<char>>;

    open spec fn deep_view(&self) -> Seq<Seq<char>> {
        self.view()
    }
}

/// The first ancestor of `start` (inclusive) that holds the marker, or
/// `None` when the walk reaches past the filesystem root without a match.
pub open spec fn package_root_spec(
    start: Seq<Seq<char>>,
    marked: Seq<Seq<Seq<char>>>,
) -> Option<Seq<Seq<char>>>
    decreases start.len(),
{
    if marked.contains(start) {
        Some(start)
    } else if start.len() == 0 {
        None
    } else {
        package_root_spec(start.drop_last(), marked)
    }
}

/// The package root governing a file: the walk started at the directory
/// that contains it; a path without components has no such directory.
pub open spec fn file_package_root_spec(
    file: Seq<Seq<char>>,
    marked: Seq<Seq<Seq<char>>>,
) -> Option<Seq<Seq<char>>> {
    if file.len() == 0 {
        None
    } else {
        package_root_spec(file.drop_last(), marked)
    }
}

/// An element-wise copy of a path's components.
fn clone_components(components: &Vec<String>) -> (r: Vec<String>)
    ensures
        r.deep_view() == components.deep_view(),
        r.len() == components.len(),
{
    let mut out: Vec<String> = Vec::new();
    let mut j: usize = 0;
    while j < components.len()
        invariant
            j <= components.len(),
            out.len() == j,
            forall|k: int| 0 <= k < j ==> out.deep_view()[k] == components.deep_view()[k],
        decreases components.len() - j,
    {
        out.push(components[j].clone());
        j = j + 1;
    }
    proof {
        assert(out.deep_view() =~= components.deep_view());
    }
    out
}

/// Whether two component vectors spell the same path.
fn path_components_eq(a: &Vec<String>, b: &Vec<String>) -> (r: bool)
    ensures
        r == (a.deep_view() == b.deep_view()),
{
    if a.len() != b.len() {
        proof {
            assert(a.deep_view().len() != b.deep_view().len());
        }
        return false;
    }
    let mut j: usize = 0;
    while j < a.len()
        invariant
            j <= a.len(),
            a.len() == b.len(),
            forall|k: int| 0 <= k < j ==> a.deep_view()[k] == b.deep_view()[k],
        decreases a.len() - j,
    {
        let x = &a[j];
        let y = &b[j];
        if !x.eq(y) {
            proof {
                assert(a.deep_view()[j as int] != b.deep_view()[j as int]);
            }
            return false;
        }
        j = j + 1;
    }
    proof {
        assert(a.deep_view() =~= b.deep_view());
    }
    true
}

/// Whether `p` names one of the marked directories.
fn contains_path(dirs: &Vec<AbsPath>, p: &Vec<String>) -> (r: bool)
    ensures
        r == dirs.deep_view().contains(p.deep_view()),
{
    let mut j: usize = 0;
    while j < dirs.len()
        invariant
            j <= dirs.len(),
            forall|k: int| 0 <= k < j ==> dirs.deep_view()[k] != p.deep_view(),
        decreases dirs.len() - j,
    {
        let dir = &dirs[j];
        if path_components_eq(&dir.components, p) {
            proof {
                assert(dirs.deep_view()[j as int] == p.deep_view());
            }
            return true;
        }
        j = j + 1;
    }
    proof {
        if dirs.deep_view().contains(p.deep_view()) {
            let k = choose|k: int|
                0 <= k < dirs.deep_view().len() && dirs.deep_view()[k] == p.deep_view();
            assert(false);
        }
    }
    false
}

/// Finds the root of the package enclosing `start`: the walk tests `start`
/// itself and then each parent in turn, and answers the first directory
/// that holds the marker.  The walk is independent of version control.
pub fn find_dart_package_root(start: &AbsPath, marked_dirs: &Vec<AbsPath>) -> (r: Option<AbsPath>)
    ensures
        r matches Some(p) ==> package_root_spec(start@, marked_dirs.deep_view()) == Some(p@),
        r is None ==> package_root_spec(start@, marked_dirs.deep_view()) is None,
{
    let mut cur = clone_components(&start.components);
    loop
        invariant
            package_root_spec(start@, marked_dirs.deep_view()) == package_root_spec(
                cur.deep_view(),
                marked_dirs.deep_view(),
            ),
        decreases cur.len(),
    {
        if contains_path(marked_dirs, &cur) {
            return Some(AbsPath { components: cur });
        }
        if cur.len() == 0 {
            return None;
        }
        let ghost before = cur.deep_view();
        cur.pop();
        proof {
            assert(cur.deep_view() =~= before.drop_last());
        }
    }
}

/// Whether `start` lies inside a package: the walk finds a marker.
pub fn is_dart_package(start: &AbsPath, marked_dirs: &Vec<AbsPath>) -> (r: bool)
    ensures
        r == (package_root_spec(start@, marked_dirs.deep_view()) is Some),
{
    find_dart_package_root(start, marked_dirs).is_some()
}

/// Finds the root of the package that contains the file at `file`,
/// walking up from the file's parent directory.
pub fn find_file_package_root(file: &AbsPath, marked_dirs: &Vec<AbsPath>) -> (r: Option<AbsPath>)
    ensures
        r matches Some(p) ==> file_package_root_spec(file@, marked_dirs.deep_view()) == Some(p@),
        r is None ==> file_package_root_spec(file@, marked_dirs.deep_view()) is None,
{
    if file.components.len() == 0 {
        return None;
    }
    let mut parent = clone_components(&file.components);
    let ghost whole = parent.deep_view();
    parent.pop();
    proof {
        assert(parent.deep_view() =~= whole.drop_last());
    }
    find_dart_package_root(&AbsPath { components: parent }, marked_dirs)
}

/// Whether a file name carries one of the codegen suffixes that mark a
/// generated source.
pub open spec fn is_generated_spec(file: Seq<char>) -> bool {
    ||| ends_with_spec(file, ".g.dart"@)
    ||| ends_with_spec(file, ".freezed.dart"@)
    ||| ends_with_spec(file, ".gr.dart"@)
    ||| ends_with_spec(file, ".gql.dart"@)
}

/// Tells whether a source file is generated, by its suffix.
pub fn is_generated_dart_file(file: &str) -> (r: bool)
    ensures
        r == is_generated_spec(file@),
{
    str_ends_with(file, ".g.dart") || str_ends_with(file, ".freezed.dart") || str_ends_with(
        file,
        ".gr.dart",
    ) || str_ends_with(file, ".gql.dart")
}

/// A handwritten Dart source: it carries the language suffix but none of
/// the codegen suffixes.
pub open spec fn is_dart_source_spec(file: Seq<char>) -> bool {
    ends_with_spec(file, ".dart"@) && !is_generated_spec(file)
}

/// The entries that are handwritten Dart sources, in their original order.
pub open spec fn dart_sources_spec(entries: Seq<Seq<char>>) -> Seq<Seq<char>>
    decreases entries.len(),
{
    if entries.len() == 0 {
        Seq::empty()
    } else {
        let rest = dart_sources_spec(entries.drop_first());
        if is_dart_source_spec(entries[0]) {
            seq![entries[0]] + rest
        } else {
            rest
        }
    }
}

proof fn lemma_dart_sources_members(entries: Seq<Seq<char>>)
    ensures
        forall|y: Seq<char>| #[trigger]
            dart_sources_spec(entries).contains(y) ==> entries.contains(y)
                && is_dart_source_spec(y),
    decreases entries.len(),
{
    if entries.len() == 0 {
        assert forall|y: Seq<char>| #[trigger]
            dart_sources_spec(entries).contains(y) implies entries.contains(y)
            && is_dart_source_spec(y) by {
            let i = choose|i: int|
                0 <= i < dart_sources_spec(entries).len() && dart_sources_spec(entries)[i] == y;
        }
    } else {
        let tail = entries.drop_first();
        lemma_dart_sources_members(tail);
        let rest = dart_sources_spec(tail);
        assert forall|y: Seq<char>| #[trigger]
            dart_sources_spec(entries).contains(y) implies entries.contains(y)
            && is_dart_source_spec(y) by {
            let out = dart_sources_spec(entries);
            let i = choose|i: int| 0 <= i < out.len() && out[i] == y;
            if is_dart_source_spec(entries[0]) && i == 0 {
                assert(entries[0] == y);
            } else {
                let j = if is_dart_source_spec(entries[0]) {
                    i - 1
                } else {
                    i
                };
                assert(rest[j] == y);
                assert(rest.contains(y));
                let k = choose|k: int| 0 <= k < tail.len() && tail[k] == y;
                assert(entries[k + 1] == y);
            }
        }
    }
}

proof fn lemma_dart_sources_sorted(entries: Seq<Seq<char>>)
    requires
        strictly_sorted(entries),
    ensures
        strictly_sorted(dart_sources_spec(entries)),
    decreases entries.len(),
{
    if entries.len() > 0 {
        let tail = entries.drop_first();
        assert(strictly_sorted(tail)) by {
            assert forall|i: int, j: int| 0 <= i < j < tail.len() implies crate::text::chars_lt(
                tail[i],
                tail[j],
            ) by {
                assert(tail[i] == entries[i + 1]);
                assert(tail[j] == entries[j + 1]);
            }
        }
        lemma_dart_sources_sorted(tail);
        lemma_dart_sources_members(tail);
        let rest = dart_sources_spec(tail);
        if is_dart_source_spec(entries[0]) {
            let out = seq![entries[0]] + rest;
            assert forall|i: int, j: int| 0 <= i < j < out.len() implies crate::text::chars_lt(
                out[i],
                out[j],
            ) by {
                if i == 0 {
                    assert(out[j] == rest[j - 1]);
                    assert(rest.contains(rest[j - 1]));
                    assert(tail.contains(rest[j - 1]));
                    let k = choose|k: int| 0 <= k < tail.len() && tail[k] == rest[j - 1];
                    assert(entries[k + 1] == rest[j - 1]);
                } else {
                    assert(out[i] == rest[i - 1]);
                    assert(out[j] == rest[j - 1]);
                }
            }
        }
    }
}

/// Restricts a change set to handwritten Dart sources.  A pure
/// post-processing step: it touches no other entry and keeps the
/// sorted/deduplicated invariant intact.
pub fn dart_source_files(files: &FileSet) -> (r: FileSet)
    ensures
        r@ == dart_sources_spec(files@),
        files.wf() ==> r.wf(),
{
    let ghost all = files@;
    let mut kept: Vec<String> = Vec::new();
    let mut i: usize = 0;
    proof {
        assert(all.skip(0) =~= all);
        assert(kept.deep_view() + dart_sources_spec(all) =~= dart_sources_spec(all));
    }
    while i < files.entries.len()
        invariant
            i <= files.entries.len(),
            all == files@,
            dart_sources_spec(all) == kept.deep_view() + dart_sources_spec(all.skip(i as int)),
        decreases files.entries.len() - i,
    {
        let ghost rem = all.skip(i as int);
        proof {
            assert(rem[0] == all[i as int]);
            assert(rem.drop_first() =~= all.skip(i + 1));
        }
        let entry = &files.entries[i];
        assert(entry@ == all[i as int]);
        let keep = str_ends_with(entry.as_str(), ".dart") && !is_generated_dart_file(
            entry.as_str(),
        );
        if keep {
            proof {
                assert(kept.deep_view() + (seq![all[i as int]] + dart_sources_spec(
                    all.skip(i + 1),
                )) =~= (kept.deep_view() + seq![all[i as int]]) + dart_sources_spec(
                    all.skip(i + 1),
                ));
            }
            kept.push(entry.clone());
            proof {
                assert(kept.deep_view() =~= kept.deep_view().drop_last() + seq![all[i as int]]);
            }
        }
        i = i + 1;
    }
    proof {
        assert(all.skip(files.entries.len() as int) =~= Seq::<Seq<char>>::empty());
        assert(kept.deep_view() + Seq::<Seq<char>>::empty() =~= kept.deep_view());
        if files.wf() {
            lemma_dart_sources_sorted(all);
            lemma_dart_sources_members(all);
            assert forall|k: int| 0 <= k < dart_sources_spec(all).len() implies dart_sources_spec(
                all,
            )[k].len() > 0 by {
                assert(dart_sources_spec(all).contains(dart_sources_spec(all)[k]));
                let y = dart_sources_spec(all)[k];
                assert(all.contains(y));
                let m = choose|m: int| 0 <= m < all.len() && all[m] == y;
            }
        }
    }
    FileSet { entries: kept }
}

} // verus!
