//! `FileSet`: an ordered list of path strings with no duplicates, no empty
//! entries, and ascending lexicographic order.  Every change-set query
//! produces its answer in this canonical form.

use vstd::prelude::*;
use crate::text::{
    chars_lt, lemma_chars_lt_asym, lemma_chars_lt_irrefl, lemma_chars_lt_total,
    lemma_chars_lt_trans, str_lt,
};

verus! {

/// Pairwise strictly ascending lexicographic order.
pub open spec fn strictly_sorted(s: Seq<Seq<char>>) -> bool {
    forall|i: int, j: int| 0 <= i < j < s.len() ==> chars_lt(s[i], s[j])
}

/// Insertion into a sorted sequence, keeping one copy of each entry.
pub open spec fn insert_sorted(x: Seq<char>, s: Seq<Seq<char>>) -> Seq<Seq<char>>
    decreases s.len(),
{
    if s.len() == 0 {
        seq![x]
    } else if chars_lt(x, s[0]) {
        seq![x] + s
    } else if x == s[0] {
        s
    } else {
        seq![s[0]] + insert_sorted(x, s.drop_first())
    }
}

/// The canonical form of a list of lines: empty entries dropped, the rest
/// sorted ascending and deduplicated.
pub open spec fn canon(ls: Seq<Seq<char>>) -> Seq<Seq<char>>
    decreases ls.len(),
{
    if ls.len() == 0 {
        Seq::empty()
    } else {
        let rest = canon(ls.drop_first());
        if ls[0].len() == 0 {
            rest
        } else {
            insert_sorted(ls[0], rest)
        }
    }
}

proof fn lemma_insert_sorted_props(x: Seq<char>, s: Seq<Seq<char>>)
    requires
        strictly_sorted(s),
    ensures
        strictly_sorted(insert_sorted(x, s)),
        forall|y: Seq<char>| #[trigger]
            insert_sorted(x, s).contains(y) <==> (y == x || s.contains(y)),
    decreases s.len(),
{
    let out = insert_sorted(x, s);
    if s.len() == 0 {
        assert forall|y: Seq<char>| #[trigger] out.contains(y) implies (y == x || s.contains(y)) by {
            let i = choose|i: int| 0 <= i < out.len() && out[i] == y;
        }
        assert(out.contains(x)) by {
            assert(out[0] == x);
        }
    } else if chars_lt(x, s[0]) {
        assert forall|i: int, j: int| 0 <= i < j < out.len() implies chars_lt(out[i], out[j]) by {
            if i == 0 {
                if j > 1 {
                    lemma_chars_lt_trans(x, s[0], s[j - 1]);
                }
            }
        }
        assert forall|y: Seq<char>| #[trigger] out.contains(y) implies (y == x || s.contains(y)) by {
            let i = choose|i: int| 0 <= i < out.len() && out[i] == y;
            if i > 0 {
                assert(s[i - 1] == y);
            }
        }
        assert forall|y: Seq<char>| (y == x || s.contains(y)) implies #[trigger] out.contains(y) by {
            if y == x {
                assert(out[0] == y);
            } else {
                let i = choose|i: int| 0 <= i < s.len() && s[i] == y;
                assert(out[i + 1] == y);
            }
        }
    } else if x == s[0] {
        assert forall|y: Seq<char>| (y == x || s.contains(y)) implies #[trigger] out.contains(y) by {
            if y == x {
                assert(out[0] == y);
            }
        }
    } else {
        lemma_chars_lt_total(x, s[0]);
        assert(chars_lt(s[0], x));
        let tail = s.drop_first();
        assert(strictly_sorted(tail)) by {
            assert forall|i: int, j: int| 0 <= i < j < tail.len() implies chars_lt(
                tail[i],
                tail[j],
            ) by {
                assert(tail[i] == s[i + 1]);
                assert(tail[j] == s[j + 1]);
            }
        }
        lemma_insert_sorted_props(x, tail);
        let inner = insert_sorted(x, tail);
        assert forall|i: int, j: int| 0 <= i < j < out.len() implies chars_lt(out[i], out[j]) by {
            if i == 0 {
                assert(out[j] == inner[j - 1]);
                assert(inner.contains(inner[j - 1]));
                let y = inner[j - 1];
                if y == x {
                    assert(chars_lt(s[0], x));
                } else {
                    assert(tail.contains(y));
                    let k = choose|k: int| 0 <= k < tail.len() && tail[k] == y;
                    assert(tail[k] == s[k + 1]);
                    assert(chars_lt(s[0], s[k + 1]));
                }
            } else {
                assert(out[i] == inner[i - 1]);
                assert(out[j] == inner[j - 1]);
            }
        }
        assert forall|y: Seq<char>| #[trigger] out.contains(y) implies (y == x || s.contains(y)) by {
            let i = choose|i: int| 0 <= i < out.len() && out[i] == y;
            if i == 0 {
                assert(s[0] == y);
            } else {
                assert(inner[i - 1] == y);
                assert(inner.contains(y));
                if y != x {
                    assert(tail.contains(y));
                    let k = choose|k: int| 0 <= k < tail.len() && tail[k] == y;
                    assert(s[k + 1] == y);
                }
            }
        }
        assert forall|y: Seq<char>| (y == x || s.contains(y)) implies #[trigger] out.contains(y) by {
            if y == x {
                assert(inner.contains(x));
                let k = choose|k: int| 0 <= k < inner.len() && inner[k] == x;
                assert(out[k + 1] == x);
            } else {
                let i = choose|i: int| 0 <= i < s.len() && s[i] == y;
                if i == 0 {
                    assert(out[0] == y);
                } else {
                    assert(tail[i - 1] == y);
                    assert(tail.contains(y));
                    assert(inner.contains(y));
                    let k = choose|k: int| 0 <= k < inner.len() && inner[k] == y;
                    assert(out[k + 1] == y);
                }
            }
        }
    }
}

proof fn lemma_canon_props(ls: Seq<Seq<char>>)
    ensures
        strictly_sorted(canon(ls)),
        forall|y: Seq<char>| #[trigger]
            canon(ls).contains(y) <==> (ls.contains(y) && y.len() > 0),
    decreases ls.len(),
{
    if ls.len() == 0 {
        assert forall|y: Seq<char>| #[trigger] canon(ls).contains(y) implies (ls.contains(y)
            && y.len() > 0) by {
            let i = choose|i: int| 0 <= i < canon(ls).len() && canon(ls)[i] == y;
        }
    } else {
        let tail = ls.drop_first();
        lemma_canon_props(tail);
        let rest = canon(tail);
        if ls[0].len() == 0 {
            assert forall|y: Seq<char>| #[trigger] canon(ls).contains(y) implies (ls.contains(y)
                && y.len() > 0) by {
                assert(rest.contains(y));
                assert(tail.contains(y));
                let k = choose|k: int| 0 <= k < tail.len() && tail[k] == y;
                assert(ls[k + 1] == y);
            }
            assert forall|y: Seq<char>| (ls.contains(y) && y.len() > 0) implies #[trigger]
                canon(ls).contains(y) by {
                let i = choose|i: int| 0 <= i < ls.len() && ls[i] == y;
                assert(i > 0);
                assert(tail[i - 1] == y);
                assert(tail.contains(y));
            }
        } else {
            lemma_insert_sorted_props(ls[0], rest);
            assert forall|y: Seq<char>| #[trigger] canon(ls).contains(y) implies (ls.contains(y)
                && y.len() > 0) by {
                if y == ls[0] {
                    assert(ls.contains(y)) by {
                        assert(ls[0] == y);
                    }
                } else {
                    assert(rest.contains(y));
                    assert(tail.contains(y));
                    let k = choose|k: int| 0 <= k < tail.len() && tail[k] == y;
                    assert(ls[k + 1] == y);
                }
            }
            assert forall|y: Seq<char>| (ls.contains(y) && y.len() > 0) implies #[trigger]
                canon(ls).contains(y) by {
                let i = choose|i: int| 0 <= i < ls.len() && ls[i] == y;
                if i > 0 {
                    assert(tail[i - 1] == y);
                    assert(tail.contains(y));
                }
            }
        }
    }
}

/// Two strictly sorted sequences with the same members are the same
/// sequence: the canonical form is unique.
proof fn lemma_sorted_unique(a: Seq<Seq<char>>, b: Seq<Seq<char>>)
    requires
        strictly_sorted(a),
        strictly_sorted(b),
        forall|y: Seq<char>| a.contains(y) <==> b.contains(y),
    ensures
        a == b,
    decreases a.len(),
{
    if a.len() == 0 {
        if b.len() > 0 {
            assert(b.contains(b[0]));
            assert(a.contains(b[0]));
            let i = choose|i: int| 0 <= i < a.len() && a[i] == b[0];
            assert(false);
        }
        assert(a =~= b);
    } else if b.len() == 0 {
        assert(a.contains(a[0]));
        assert(b.contains(a[0]));
        let i = choose|i: int| 0 <= i < b.len() && b[i] == a[0];
        assert(false);
    } else {
        assert(a[0] == b[0]) by {
            assert(a.contains(a[0]));
            assert(b.contains(a[0]));
            let j = choose|j: int| 0 <= j < b.len() && b[j] == a[0];
            assert(b.contains(b[0]));
            assert(a.contains(b[0]));
            let i = choose|i: int| 0 <= i < a.len() && a[i] == b[0];
            if j > 0 && i > 0 {
                assert(chars_lt(b[0], b[j]));
                assert(chars_lt(a[0], a[i]));
                lemma_chars_lt_asym(a[0], b[0]);
            }
        }
        let at = a.drop_first();
        let bt = b.drop_first();
        assert(strictly_sorted(at)) by {
            assert forall|i: int, j: int| 0 <= i < j < at.len() implies chars_lt(at[i], at[j]) by {
                assert(at[i] == a[i + 1]);
                assert(at[j] == a[j + 1]);
            }
        }
        assert(strictly_sorted(bt)) by {
            assert forall|i: int, j: int| 0 <= i < j < bt.len() implies chars_lt(bt[i], bt[j]) by {
                assert(bt[i] == b[i + 1]);
                assert(bt[j] == b[j + 1]);
            }
        }
        assert forall|y: Seq<char>| at.contains(y) <==> bt.contains(y) by {
            if at.contains(y) {
                let i = choose|i: int| 0 <= i < at.len() && at[i] == y;
                assert(a[i + 1] == y);
                assert(a.contains(y));
                assert(chars_lt(a[0], y));
                lemma_chars_lt_irrefl(y);
                assert(b.contains(y));
                let j = choose|j: int| 0 <= j < b.len() && b[j] == y;
                assert(j > 0);
                assert(bt[j - 1] == y);
                assert(bt.contains(y));
            }
            if bt.contains(y) {
                let j = choose|j: int| 0 <= j < bt.len() && bt[j] == y;
                assert(b[j + 1] == y);
                assert(b.contains(y));
                assert(chars_lt(b[0], y));
                lemma_chars_lt_irrefl(y);
                assert(a.contains(y));
                let i = choose|i: int| 0 <= i < a.len() && a[i] == y;
                assert(i > 0);
                assert(at[i - 1] == y);
                assert(at.contains(y));
            }
        }
        lemma_sorted_unique(at, bt);
        assert(a =~= b) by {
            assert forall|i: int| 0 < i < a.len() implies a[i] == b[i] by {
                assert(at[i - 1] == bt[i - 1]);
            }
        }
    }
}

/// Membership in a concatenation is membership in either part.
proof fn lemma_contains_concat(a: Seq<Seq<char>>, b: Seq<Seq<char>>)
    ensures
        forall|y: Seq<char>| #[trigger] (a + b).contains(y) <==> (a.contains(y) || b.contains(y)),
{
    assert forall|y: Seq<char>| #[trigger] (a + b).contains(y) implies (a.contains(y)
        || b.contains(y)) by {
        let i = choose|i: int| 0 <= i < (a + b).len() && (a + b)[i] == y;
        if i < a.len() {
            assert(a[i] == y);
        } else {
            assert(b[i - a.len()] == y);
        }
    }
    assert forall|y: Seq<char>| (a.contains(y) || b.contains(y)) implies #[trigger]
        (a + b).contains(y) by {
        if a.contains(y) {
            let i = choose|i: int| 0 <= i < a.len() && a[i] == y;
            assert((a + b)[i] == y);
        } else {
            let i = choose|i: int| 0 <= i < b.len() && b[i] == y;
            assert((a + b)[a.len() + i] == y);
        }
    }
}

/// Canonicalizing a concatenation of three lists gives the same answer
/// whether or not each list was canonicalized first: the deduplicated
/// sorted union of the parts.
pub proof fn lemma_canon_union(a: Seq<Seq<char>>, b: Seq<Seq<char>>, c: Seq<Seq<char>>)
    ensures
        canon(canon(a) + canon(b) + canon(c)) == canon(a + b + c),
{
    lemma_canon_props(a);
    lemma_canon_props(b);
    lemma_canon_props(c);
    lemma_canon_props(canon(a) + canon(b) + canon(c));
    lemma_canon_props(a + b + c);
    lemma_contains_concat(canon(a) + canon(b), canon(c));
    lemma_contains_concat(canon(a), canon(b));
    lemma_contains_concat(a + b, c);
    lemma_contains_concat(a, b);
    lemma_sorted_unique(canon(canon(a) + canon(b) + canon(c)), canon(a + b + c));
}

/// An ordered list of path strings: the result form of every change-set
/// query.  Well-formed values are sorted ascending, duplicate-free and hold
/// no empty string.
#[derive(Debug, PartialEq, Eq)]
pub struct FileSet {
    pub entries: Vec<String>,
}

impl View for FileSet {
    type V = Seq<Seq<char>>;

    open spec fn view(&self) -> Seq<Seq<char>> {
        self.entries.deep_view()
    }
}

impl FileSet {
    /// The invariant every constructed `FileSet` satisfies: entries in
    /// strictly ascending lexicographic order (hence duplicate-free), and
    /// none of them empty.
    pub open spec fn wf(&self) -> bool {
        &&& strictly_sorted(self@)
        &&& forall|i: int| 0 <= i < self@.len() ==> self@[i].len() > 0
    }

    /// Builds the canonical form of a list of lines: empty lines dropped,
    /// the rest sorted ascending with duplicates removed.
    pub fn from_lines(lines: &Vec<String>) -> (r: FileSet)
        ensures
            r@ == canon(lines.deep_view()),
            r.wf(),
    {
        let ghost all = lines.deep_view();
        let mut entries: Vec<String> = Vec::new();
        let mut idx: usize = 0;
        proof {
            assert(all.take(0) =~= Seq::<Seq<char>>::empty());
        }
        while idx < lines.len()
            invariant
                idx <= lines.len(),
                all == lines.deep_view(),
                strictly_sorted(entries.deep_view()),
                forall|i: int| 0 <= i < entries.deep_view().len()
                    ==> entries.deep_view()[i].len() > 0,
                forall|y: Seq<char>| #[trigger]
                    entries.deep_view().contains(y) <==> (all.take(idx as int).contains(y)
                        && y.len() > 0),
            decreases lines.len() - idx,
        {
            let line = &lines[idx];
            assert(line@ == all[idx as int]);
            if !line.as_str().is_empty() {
                insert_line(&mut entries, line);
            }
            proof {
                assert(all.take(idx + 1) =~= all.take(idx as int).push(all[idx as int]));
                assert forall|y: Seq<char>| #[trigger]
                    all.take(idx + 1).contains(y) implies (all.take(idx as int).contains(y)
                    || y == all[idx as int]) by {
                    let t = all.take(idx + 1);
                    let i = choose|i: int| 0 <= i < t.len() && (#[trigger] t[i]) == y;
                    if i < idx {
                        assert(all.take(idx as int)[i] == y);
                    }
                }
                assert forall|y: Seq<char>|
                    (all.take(idx as int).contains(y) || y == all[idx as int]) implies #[trigger]
                    all.take(idx + 1).contains(y) by {
                    if all.take(idx as int).contains(y) {
                        let i = choose|i: int| 0 <= i < idx && all.take(idx as int)[i] == y;
                        assert(all.take(idx + 1)[i] == y);
                    } else {
                        assert(all.take(idx + 1)[idx as int] == y);
                    }
                }
            }
            idx = idx + 1;
        }
        proof {
            assert(all.take(lines.len() as int) =~= all);
            lemma_canon_props(all);
            lemma_sorted_unique(entries.deep_view(), canon(all));
        }
        FileSet { entries }
    }

    /// The number of entries.
    pub fn len(&self) -> (n: usize)
        ensures
            n == self@.len(),
    {
        self.entries.len()
    }
}

/// A well-formed `FileSet` holds no duplicate entries, no empty strings,
/// and its entries ascend lexicographically.
pub proof fn lemma_file_set_invariant(fs: FileSet)
    requires
        fs.wf(),
    ensures
        forall|i: int, j: int| 0 <= i < j < fs@.len() ==> fs@[i] != fs@[j],
        forall|i: int| 0 <= i < fs@.len() ==> fs@[i].len() > 0,
        forall|i: int, j: int| 0 <= i < j < fs@.len() ==> chars_lt(fs@[i], fs@[j]),
{
    assert forall|i: int, j: int| 0 <= i < j < fs@.len() implies fs@[i] != fs@[j] by {
        lemma_chars_lt_irrefl(fs@[i]);
    }
}

/// Inserts one non-empty line at its sorted position, unless it is already
/// present.
fn insert_line(entries: &mut Vec<String>, line: &String)
    requires
        strictly_sorted(old(entries).deep_view()),
        forall|i: int| 0 <= i < old(entries).deep_view().len()
            ==> old(entries).deep_view()[i].len() > 0,
        line@.len() > 0,
    ensures
        strictly_sorted(final(entries).deep_view()),
        forall|i: int| 0 <= i < final(entries).deep_view().len()
            ==> final(entries).deep_view()[i].len() > 0,
        forall|y: Seq<char>| #[trigger]
            final(entries).deep_view().contains(y) <==> (old(entries).deep_view().contains(y)
                || y == line@),
{
    let ghost before = entries.deep_view();
    let mut k: usize = 0;
    loop
        invariant
            k <= entries.len(),
            entries.deep_view() == before,
            strictly_sorted(before),
            forall|j: int| 0 <= j < k ==> chars_lt(before[j], line@),
        ensures
            k <= entries.len(),
            entries.deep_view() == before,
            forall|j: int| 0 <= j < k ==> chars_lt(before[j], line@),
            k < entries.len() ==> !chars_lt(before[k as int], line@),
        decreases entries.len() - k,
    {
        if k == entries.len() {
            break;
        }
        let e = &entries[k];
        assert(e@ == before[k as int]);
        if !str_lt(e.as_str(), line.as_str()) {
            break;
        }
        k = k + 1;
    }
    if k < entries.len() {
        let e = &entries[k];
        assert(e@ == before[k as int]);
        if e.eq(line) {
            // already present: membership is unchanged
            assert(before.contains(line@)) by {
                assert(before[k as int] == line@);
            }
            return;
        }
        proof {
            lemma_chars_lt_total(line@, before[k as int]);
        }
    }
    entries.insert(k, line.clone());
    proof {
        let after = entries.deep_view();
        assert(after =~= before.take(k as int) + seq![line@] + before.skip(k as int)) by {
            assert forall|i: int| 0 <= i < after.len() implies after[i] == (before.take(k as int)
                + seq![line@] + before.skip(k as int))[i] by {
                if i < k {
                } else if i == k {
                } else {
                    assert(after[i] == before[i - 1]);
                }
            }
        }
        assert forall|i: int, j: int| 0 <= i < j < after.len() implies chars_lt(
            after[i],
            after[j],
        ) by {
            let x = if i < k { before[i] } else if i == k { line@ } else { before[i - 1] };
            let y = if j < k { before[j] } else if j == k { line@ } else { before[j - 1] };
            assert(after[i] == x);
            assert(after[j] == y);
            if i < k && j == k {
                assert(chars_lt(before[i], line@));
            } else if i < k && j > k {
                if j - 1 == i {
                    assert(chars_lt(x, line@));
                    assert(chars_lt(line@, before[j - 1]));
                    assert(false);
                }
            } else if i == k && j > k {
                if k < before.len() {
                    if j - 1 == k {
                        assert(chars_lt(line@, before[k as int]));
                    } else {
                        lemma_chars_lt_trans(line@, before[k as int], before[j - 1]);
                    }
                } else {
                    assert(j - 1 >= before.len());
                    assert(false);
                }
            }
        }
        assert forall|y: Seq<char>| #[trigger] after.contains(y) implies (before.contains(y) || y
            == line@) by {
            let i = choose|i: int| 0 <= i < after.len() && after[i] == y;
            if i < k {
                assert(before[i] == y);
            } else if i > k {
                assert(before[i - 1] == y);
            }
        }
        assert forall|y: Seq<char>| (before.contains(y) || y == line@) implies #[trigger]
            after.contains(y) by {
            if y == line@ {
                assert(after[k as int] == y);
            } else {
                let i = choose|i: int| 0 <= i < before.len() && before[i] == y;
                if i < k {
                    assert(after[i] == y);
                } else {
                    assert(after[i + 1] == y);
                }
            }
        }
    }
}

} // verus!
