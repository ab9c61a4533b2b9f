//! Character-sequence foundations shared by the other modules: the
//! whitespace class, lexicographic order on `Seq<char>`, trimming, splitting
//! command output into lines, and suffix matching.

use vstd::prelude::*;

verus! {

/// The Unicode white-space characters: the ASCII ones (space, tab, line
/// feed, vertical tab, form feed, carriage return) together with the other
/// code points carrying the `White_Space` property.  This is the class that
/// both output trimming and the sanitizer's allow-list accept.
pub open spec fn is_space_char(c: char) -> bool {
    ||| c == ' ' || c == '\t' || c == '\n' || c == '\u{0B}' || c == '\u{0C}' || c == '\r'
    ||| c == '\u{85}' || c == '\u{A0}' || c == '\u{1680}'
    ||| '\u{2000}' as u32 <= c as u32 && c as u32 <= '\u{200A}' as u32
    ||| c == '\u{2028}' || c == '\u{2029}' || c == '\u{202F}' || c == '\u{205F}'
    ||| c == '\u{3000}'
}

/// Strict lexicographic order on character sequences: a proper prefix comes
/// first, otherwise the first differing character decides.
pub open spec fn chars_lt(a: Seq<char>, b: Seq<char>) -> bool
    decreases a.len(),
{
    if b.len() == 0 {
        false
    } else if a.len() == 0 {
        true
    } else if (a[0] as int) < (b[0] as int) {
        true
    } else if (a[0] as int) > (b[0] as int) {
        false
    } else {
        chars_lt(a.drop_first(), b.drop_first())
    }
}

/// Lexicographic order is irreflexive.
pub proof fn lemma_chars_lt_irrefl(a: Seq<char>)
    ensures
        !chars_lt(a, a),
    decreases a.len(),
{
    if a.len() > 0 {
        lemma_chars_lt_irrefl(a.drop_first());
    }
}

/// Any two distinct character sequences are ordered one way or the other.
pub proof fn lemma_chars_lt_total(a: Seq<char>, b: Seq<char>)
    ensures
        a == b || chars_lt(a, b) || chars_lt(b, a),
    decreases a.len(),
{
    if a.len() == 0 || b.len() == 0 {
    } else if (a[0] as int) == (b[0] as int) {
        lemma_chars_lt_total(a.drop_first(), b.drop_first());
        if a.drop_first() == b.drop_first() {
            assert(a == seq![a[0]] + a.drop_first());
            assert(b == seq![b[0]] + b.drop_first());
        }
    }
}

/// Lexicographic order is asymmetric.
pub proof fn lemma_chars_lt_asym(a: Seq<char>, b: Seq<char>)
    ensures
        !(chars_lt(a, b) && chars_lt(b, a)),
    decreases a.len(),
{
    if a.len() > 0 && b.len() > 0 && (a[0] as int) == (b[0] as int) {
        lemma_chars_lt_asym(a.drop_first(), b.drop_first());
    }
}

/// Lexicographic order is transitive.
pub proof fn lemma_chars_lt_trans(a: Seq<char>, b: Seq<char>, c: Seq<char>)
    requires
        chars_lt(a, b),
        chars_lt(b, c),
    ensures
        chars_lt(a, c),
    decreases a.len(),
{
    if a.len() > 0 && b.len() > 0 && c.len() > 0 {
        if (a[0] as int) == (b[0] as int) && (b[0] as int) == (c[0] as int) {
            lemma_chars_lt_trans(a.drop_first(), b.drop_first(), c.drop_first());
        }
    }
}

/// Decides `chars_lt(a@, b@)` for two string slices.
pub fn str_lt(a: &str, b: &str) -> (r: bool)
    ensures
        r == chars_lt(a@, b@),
{
    let a_len = a.unicode_len();
    let b_len = b.unicode_len();
    let mut i: usize = 0;
    proof {
        assert(a@.skip(0) =~= a@);
        assert(b@.skip(0) =~= b@);
    }
    loop
        invariant
            i <= a_len,
            i <= b_len,
            a_len == a@.len(),
            b_len == b@.len(),
            forall|k: int| 0 <= k < i ==> a@[k] == b@[k],
            chars_lt(a@, b@) == chars_lt(a@.skip(i as int), b@.skip(i as int)),
        decreases a_len - i,
    {
        if i == b_len {
            assert(b@.skip(i as int).len() == 0);
            return false;
        }
        if i == a_len {
            assert(a@.skip(i as int).len() == 0);
            return true;
        }
        let ca = a.get_char(i);
        let cb = b.get_char(i);
        if (ca as u32) < (cb as u32) {
            assert(chars_lt(a@.skip(i as int), b@.skip(i as int)));
            return true;
        }
        if (ca as u32) > (cb as u32) {
            assert(!chars_lt(a@.skip(i as int), b@.skip(i as int)));
            return false;
        }
        proof {
            assert(a@.skip(i as int).drop_first() =~= a@.skip(i + 1));
            assert(b@.skip(i as int).drop_first() =~= b@.skip(i + 1));
        }
        i = i + 1;
    }
}

/// Decides `is_space_char(c)`.
pub fn is_space(c: char) -> (r: bool)
    ensures
        r == is_space_char(c),
{
    let u = c as u32;
    c == ' ' || c == '\t' || c == '\n' || c == '\u{0B}' || c == '\u{0C}' || c == '\r'
        || c == '\u{85}' || c == '\u{A0}' || c == '\u{1680}'
        || ('\u{2000}' as u32 <= u && u <= '\u{200A}' as u32)
        || c == '\u{2028}' || c == '\u{2029}' || c == '\u{202F}' || c == '\u{205F}'
        || c == '\u{3000}'
}

/// The sequence with leading whitespace removed.
pub open spec fn trim_start_spec(s: Seq<char>) -> Seq<char>
    decreases s.len(),
{
    if s.len() > 0 && is_space_char(s[0]) {
        trim_start_spec(s.drop_first())
    } else {
        s
    }
}

/// The sequence with trailing whitespace removed.
pub open spec fn trim_end_spec(s: Seq<char>) -> Seq<char>
    decreases s.len(),
{
    if s.len() > 0 && is_space_char(s.last()) {
        trim_end_spec(s.drop_last())
    } else {
        s
    }
}

/// The sequence with whitespace removed from both ends.
pub open spec fn trim_spec(s: Seq<char>) -> Seq<char> {
    trim_end_spec(trim_start_spec(s))
}

proof fn lemma_trim_start_skip(s: Seq<char>, i: int)
    requires
        0 <= i <= s.len(),
        forall|k: int| 0 <= k < i ==> is_space_char(s[k]),
        i == s.len() || !is_space_char(s[i]),
    ensures
        trim_start_spec(s) == s.skip(i),
    decreases i,
{
    if i == 0 {
        assert(s.skip(0) =~= s);
    } else {
        lemma_trim_start_skip(s.drop_first(), i - 1);
        assert(s.drop_first().skip(i - 1) =~= s.skip(i));
    }
}

proof fn lemma_trim_end_take(s: Seq<char>, j: int)
    requires
        0 <= j <= s.len(),
        forall|k: int| j <= k < s.len() ==> is_space_char(s[k]),
        j == 0 || !is_space_char(s[j - 1]),
    ensures
        trim_end_spec(s) == s.take(j),
    decreases s.len() - j,
{
    if j == s.len() {
        assert(s.take(j) =~= s);
    } else {
        lemma_trim_end_take(s.drop_last(), j);
        assert(s.drop_last().take(j) =~= s.take(j));
    }
}

/// Removes leading and trailing whitespace, as command output is trimmed
/// before a single-line answer is read out of it.
pub fn trim(s: &str) -> (r: String)
    ensures
        r@ == trim_spec(s@),
{
    let n = s.unicode_len();
    let mut start: usize = 0;
    while start < n && is_space(s.get_char(start))
        invariant
            start <= n == s@.len(),
            forall|k: int| 0 <= k < start ==> is_space_char(s@[k]),
        decreases n - start,
    {
        start = start + 1;
    }
    proof {
        lemma_trim_start_skip(s@, start as int);
    }
    if start == n {
        proof {
            assert(s@.skip(start as int) =~= Seq::<char>::empty());
        }
        return String::new();
    }
    let mut end: usize = n;
    while end > start + 1 && is_space(s.get_char(end - 1))
        invariant
            start < end <= n == s@.len(),
            forall|k: int| end <= k < n ==> is_space_char(s@[k]),
        decreases end,
    {
        end = end - 1;
    }
    // the character at `start` is not whitespace, so the last loop stopped
    // either there or at the last non-whitespace character
    let end_is_clear = !is_space(s.get_char(end - 1));
    let low = if end_is_clear {
        end
    } else {
        start
    };
    proof {
        let t = s@.skip(start as int);
        lemma_trim_end_take(t, low - start);
        assert(t.take(low - start) =~= s@.subrange(start as int, low as int));
    }
    let piece = s.substring_char(start, low);
    String::from_str(piece)
}

/// A sequence with one trailing carriage return removed, as the `lines`
/// convention strips it from a line end.
pub open spec fn strip_cr(l: Seq<char>) -> Seq<char> {
    if l.len() > 0 && l.last() == '\r' {
        l.drop_last()
    } else {
        l
    }
}

/// Splitting a text into lines at each line feed, with a carriage return
/// before the line feed dropped and no empty line emitted for a trailing
/// line feed; `cur` is the part of the current line already consumed.
pub open spec fn split_lines_rec(s: Seq<char>, cur: Seq<char>) -> Seq<Seq<char>>
    decreases s.len(),
{
    if s.len() == 0 {
        if cur.len() == 0 {
            Seq::empty()
        } else {
            seq![strip_cr(cur)]
        }
    } else if s[0] == '\n' {
        seq![strip_cr(cur)] + split_lines_rec(s.drop_first(), Seq::empty())
    } else {
        split_lines_rec(s.drop_first(), cur.push(s[0]))
    }
}

/// The lines of a text.
pub open spec fn split_lines_spec(s: Seq<char>) -> Seq<Seq<char>> {
    split_lines_rec(s, Seq::empty())
}

fn take_line(s: &str, line_start: usize, i: usize) -> (r: String)
    requires
        line_start <= i <= s@.len(),
    ensures
        r@ == strip_cr(s@.subrange(line_start as int, i as int)),
{
    let cut = if i > line_start && s.get_char(i - 1) == '\r' {
        i - 1
    } else {
        i
    };
    proof {
        let cur = s@.subrange(line_start as int, i as int);
        assert(strip_cr(cur) =~= s@.subrange(line_start as int, cut as int));
    }
    String::from_str(s.substring_char(line_start, cut))
}

/// Splits a text into its lines.
pub fn split_lines(s: &str) -> (r: Vec<String>)
    ensures
        r.deep_view() == split_lines_spec(s@),
{
    let n = s.unicode_len();
    let mut out: Vec<String> = Vec::new();
    let mut line_start: usize = 0;
    let mut i: usize = 0;
    proof {
        assert(s@.skip(0) =~= s@);
        assert(s@.subrange(0, 0) =~= Seq::<char>::empty());
    }
    while i < n
        invariant
            line_start <= i <= n == s@.len(),
            split_lines_spec(s@) == out.deep_view() + split_lines_rec(
                s@.skip(i as int),
                s@.subrange(line_start as int, i as int),
            ),
        decreases n - i,
    {
        let ghost cur = s@.subrange(line_start as int, i as int);
        proof {
            assert(s@.skip(i as int)[0] == s@[i as int]);
            assert(s@.skip(i as int).drop_first() =~= s@.skip(i + 1));
        }
        if s.get_char(i) == '\n' {
            let piece = take_line(s, line_start, i);
            proof {
                assert(split_lines_rec(s@.skip(i as int), cur) == seq![strip_cr(cur)]
                    + split_lines_rec(s@.skip(i + 1), Seq::empty()));
                assert(out.deep_view().push(strip_cr(cur)) =~= out.deep_view() + seq![
                    strip_cr(cur),
                ]);
            }
            out.push(piece);
            proof {
                assert(out.deep_view() =~= out.deep_view().drop_last().push(piece@));
                assert(s@.subrange(i + 1, i + 1) =~= Seq::<char>::empty());
            }
            line_start = i + 1;
        } else {
            proof {
                assert(split_lines_rec(s@.skip(i as int), cur) == split_lines_rec(
                    s@.skip(i + 1),
                    cur.push(s@[i as int]),
                ));
                assert(cur.push(s@[i as int]) =~= s@.subrange(line_start as int, i + 1));
            }
        }
        i = i + 1;
    }
    proof {
        assert(s@.skip(n as int) =~= Seq::<char>::empty());
    }
    if line_start < n {
        let piece = take_line(s, line_start, n);
        proof {
            let cur = s@.subrange(line_start as int, n as int);
            assert(out.deep_view().push(strip_cr(cur)) =~= out.deep_view() + seq![
                strip_cr(cur),
            ]);
        }
        out.push(piece);
        proof {
            assert(out.deep_view() =~= out.deep_view().drop_last().push(
                out@.last().deep_view(),
            ));
        }
    } else {
        proof {
            assert(s@.subrange(line_start as int, n as int) =~= Seq::<char>::empty());
            assert(out.deep_view() + Seq::<Seq<char>>::empty() =~= out.deep_view());
        }
    }
    out
}

/// Whether `l` ends with the suffix `suf`.
pub open spec fn ends_with_spec(l: Seq<char>, suf: Seq<char>) -> bool {
    l.len() >= suf.len() && l.skip(l.len() - suf.len()) == suf
}

/// Decides `ends_with_spec(l@, suf@)`.
pub fn str_ends_with(l: &str, suf: &str) -> (r: bool)
    ensures
        r == ends_with_spec(l@, suf@),
{
    let l_len = l.unicode_len();
    let suf_len = suf.unicode_len();
    if suf_len > l_len {
        return false;
    }
    let off = l_len - suf_len;
    let ghost tail = l@.skip(l@.len() - suf@.len());
    let mut k: usize = 0;
    while k < suf_len
        invariant
            k <= suf_len,
            suf_len <= l_len,
            off == l_len - suf_len,
            l_len == l@.len(),
            suf_len == suf@.len(),
            tail == l@.skip(l@.len() - suf@.len()),
            forall|j: int| 0 <= j < k ==> tail[j] == suf@[j],
        decreases suf_len - k,
    {
        proof {
            assert(tail[k as int] == l@[off + k]);
        }
        if (l.get_char(off + k) as u32) != (suf.get_char(k) as u32) {
            proof {
                assert(tail[k as int] != suf@[k as int]);
            }
            return false;
        }
        k = k + 1;
    }
    proof {
        assert(tail =~= suf@);
    }
    true
}

} // verus!
