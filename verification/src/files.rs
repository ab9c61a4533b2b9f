//! Filtering a list of path strings by suffix.  Lines are judged one at a
//! time, so the calling layer can stream arbitrarily large inputs through
//! `line_matches_suffix`; `filter_files_by_suffix` is the same pass over a
//! list already in memory.

use vstd::prelude::*;
use crate::text::{ends_with_spec, str_ends_with};

verus! {

/// Whether a line ends with one of the configured suffixes.
pub open spec fn matches_any_spec(line: Seq<char>, suffixes: Seq<Seq<char>>) -> bool {
    exists|i: int| 0 <= i < suffixes.len() && ends_with_spec(line, suffixes[i])
}

/// Judges one line against the configured suffixes.
pub fn line_matches_suffix(line: &str, suffixes: &Vec<String>) -> (r: bool)
    ensures
        r == matches_any_spec(line@, suffixes.deep_view()),
{
    let mut j: usize = 0;
    while j < suffixes.len()
        invariant
            j <= suffixes.len(),
            forall|k: int| 0 <= k < j ==> !ends_with_spec(line@, suffixes.deep_view()[k]),
        decreases suffixes.len() - j,
    {
        let suffix = &suffixes[j];
        if str_ends_with(line, suffix.as_str()) {
            proof {
                assert(ends_with_spec(line@, suffixes.deep_view()[j as int]));
            }
            return true;
        }
        j = j + 1;
    }
    proof {
        if matches_any_spec(line@, suffixes.deep_view()) {
            let k = choose|k: int|
                0 <= k < suffixes.deep_view().len() && ends_with_spec(
                    line@,
                    suffixes.deep_view()[k],
                );
            assert(false);
        }
    }
    false
}

/// The lines kept by one filtering pass: input order, with every line that
/// matches a suffix removed.
pub open spec fn kept_spec(lines: Seq<Seq<char>>, suffixes: Seq<Seq<char>>) -> Seq<Seq<char>>
    decreases lines.len(),
{
    if lines.len() == 0 {
        Seq::empty()
    } else {
        let rest = kept_spec(lines.drop_first(), suffixes);
        if matches_any_spec(lines[0], suffixes) {
            rest
        } else {
            seq![lines[0]] + rest
        }
    }
}

/// What one filtering pass yields: the kept lines in input order, the
/// total number of lines consumed, and the number filtered out.
#[derive(Debug, PartialEq, Eq)]
pub struct FilterOutcome {
    /// The lines that matched no suffix, in input order.
    pub kept: Vec<String>,
    /// How many lines were consumed.
    pub total_count: usize,
    /// How many lines were removed.
    pub filtered_count: usize,
}

/// Filters a list of lines by the configured suffixes.  The total count
/// always splits into the kept lines and the filtered count.
pub fn filter_files_by_suffix(lines: &Vec<String>, suffixes: &Vec<String>) -> (r: FilterOutcome)
    ensures
        r.kept.deep_view() == kept_spec(lines.deep_view(), suffixes.deep_view()),
        r.total_count == lines.deep_view().len(),
        r.total_count == r.kept.deep_view().len() + r.filtered_count,
{
    let ghost all = lines.deep_view();
    let ghost sufs = suffixes.deep_view();
    let mut kept: Vec<String> = Vec::new();
    let mut filtered_count: usize = 0;
    let mut i: usize = 0;
    proof {
        assert(all.skip(0) =~= all);
        assert(kept.deep_view() + kept_spec(all, sufs) =~= kept_spec(all, sufs));
    }
    while i < lines.len()
        invariant
            i <= lines.len(),
            all == lines.deep_view(),
            sufs == suffixes.deep_view(),
            i == kept.len() + filtered_count,
            kept_spec(all, sufs) == kept.deep_view() + kept_spec(all.skip(i as int), sufs),
        decreases lines.len() - i,
    {
        let ghost rem = all.skip(i as int);
        proof {
            assert(rem[0] == all[i as int]);
            assert(rem.drop_first() =~= all.skip(i + 1));
        }
        let line = &lines[i];
        assert(line@ == all[i as int]);
        if line_matches_suffix(line.as_str(), suffixes) {
            filtered_count = filtered_count + 1;
        } else {
            proof {
                assert(kept.deep_view() + (seq![all[i as int]] + kept_spec(all.skip(i + 1), sufs))
                    =~= (kept.deep_view() + seq![all[i as int]]) + kept_spec(
                    all.skip(i + 1),
                    sufs,
                ));
            }
            kept.push(line.clone());
            proof {
                assert(kept.deep_view() =~= kept.deep_view().drop_last() + seq![all[i as int]]);
            }
        }
        i = i + 1;
    }
    proof {
        assert(all.skip(lines.len() as int) =~= Seq::<Seq<char>>::empty());
        assert(kept.deep_view() + Seq::<Seq<char>>::empty() =~= kept.deep_view());
    }
    FilterOutcome { kept, total_count: i, filtered_count }
}

/// Filters a list of paths against the configured suffix patterns,
/// dropping every line that carries one of them.
pub fn suffix(lines: &Vec<String>, suffixes: &Vec<String>) -> (r: FilterOutcome)
    ensures
        r.kept.deep_view() == kept_spec(lines.deep_view(), suffixes.deep_view()),
        r.total_count == lines.deep_view().len(),
        r.total_count == r.kept.deep_view().len() + r.filtered_count,
{
    filter_files_by_suffix(lines, suffixes)
}

/// `a` occurs inside `b` in order: matching front characters may be
/// consumed together, anything in `b` may be skipped.
pub open spec fn is_subsequence(a: Seq<Seq<char>>, b: Seq<Seq<char>>) -> bool
    decreases b.len(),
{
    if a.len() == 0 {
        true
    } else if b.len() == 0 {
        false
    } else if a[0] == b[0] {
        is_subsequence(a.drop_first(), b.drop_first())
    } else {
        is_subsequence(a, b.drop_first())
    }
}

proof fn lemma_subseq_skip_b(a: Seq<Seq<char>>, b: Seq<Seq<char>>)
    requires
        b.len() > 0,
        is_subsequence(a, b.drop_first()),
    ensures
        is_subsequence(a, b),
    decreases a.len() + b.len(),
{
    if a.len() == 0 {
    } else if a[0] == b[0] {
        lemma_subseq_drop_a(a, b.drop_first());
    }
}

proof fn lemma_subseq_drop_a(a: Seq<Seq<char>>, b: Seq<Seq<char>>)
    requires
        a.len() > 0,
        is_subsequence(a, b),
    ensures
        is_subsequence(a.drop_first(), b),
    decreases a.len() + b.len(),
{
    assert(b.len() > 0);
    if a[0] == b[0] {
        lemma_subseq_skip_b(a.drop_first(), b);
    } else {
        lemma_subseq_drop_a(a, b.drop_first());
        lemma_subseq_skip_b(a.drop_first(), b);
    }
}

/// For every input, the kept lines form a subsequence of the input: the
/// pass reorders nothing and deduplicates nothing.
pub proof fn lemma_kept_is_subsequence(lines: Seq<Seq<char>>, suffixes: Seq<Seq<char>>)
    ensures
        is_subsequence(kept_spec(lines, suffixes), lines),
    decreases lines.len(),
{
    if lines.len() > 0 {
        lemma_kept_is_subsequence(lines.drop_first(), suffixes);
        let rest = kept_spec(lines.drop_first(), suffixes);
        if matches_any_spec(lines[0], suffixes) {
            lemma_subseq_skip_b(rest, lines);
        } else {
            let kept = seq![lines[0]] + rest;
            assert(kept[0] == lines[0]);
            assert(kept.drop_first() =~= rest);
        }
    }
}

} // verus!
