//! Validation and escaping of untrusted strings destined for a subprocess
//! shell: a conservative character allow-list, POSIX single-quote escaping,
//! and the unquoting that inverts it.

use vstd::prelude::*;
use crate::errors::Error;
use crate::text::is_space_char;

verus! {

/// A character the allow-list accepts: ASCII alphanumerics, `.`, `_`, `/`,
/// `-`, and white space (the Unicode `White_Space` class, see
/// `is_space_char`).  Everything else — quotes, backticks, `$`, `;`, `|`,
/// `&`, redirects, wildcards — is rejected.
pub open spec fn is_safe_shell_char(c: char) -> bool {
    ||| 'a' as u32 <= c as u32 && c as u32 <= 'z' as u32
    ||| 'A' as u32 <= c as u32 && c as u32 <= 'Z' as u32
    ||| '0' as u32 <= c as u32 && c as u32 <= '9' as u32
    ||| c == '.'
    ||| c == '_'
    ||| c == '/'
    ||| c == '-'
    ||| is_space_char(c)
}

/// A string is safe when it is non-empty and every one of its characters
/// is: the empty string is rejected like any other that the allow-list
/// does not positively accept.
pub open spec fn is_safe_spec(s: Seq<char>) -> bool {
    s.len() > 0 && forall|i: int| 0 <= i < s.len() ==> is_safe_shell_char(s[i])
}

/// Validates that a string is non-empty and contains only characters safe
/// to place in a shell command.
pub fn is_safe_shell_input(input: &str) -> (r: bool)
    ensures
        r == is_safe_spec(input@),
{
    let n = input.unicode_len();
    if n == 0 {
        return false;
    }
    let mut i: usize = 0;
    while i < n
        invariant
            i <= n == input@.len(),
            forall|k: int| 0 <= k < i ==> is_safe_shell_char(input@[k]),
        decreases n - i,
    {
        let c = input.get_char(i);
        let u = c as u32;
        let safe = ('a' as u32 <= u && u <= 'z' as u32) || ('A' as u32 <= u && u <= 'Z' as u32)
            || ('0' as u32 <= u && u <= '9' as u32) || c == '.' || c == '_' || c == '/'
            || c == '-' || crate::text::is_space(c);
        if !safe {
            return false;
        }
        i = i + 1;
    }
    true
}

/// The quoted body of `s`: every embedded single quote becomes the
/// four-character sequence that closes the quote, escapes a literal quote,
/// and reopens the quote.
pub open spec fn escape_body(s: Seq<char>) -> Seq<char>
    decreases s.len(),
{
    if s.len() == 0 {
        Seq::empty()
    } else {
        let head = if s[0] == '\'' {
            seq!['\'', '\\', '\'', '\'']
        } else {
            seq![s[0]]
        };
        head + escape_body(s.drop_first())
    }
}

/// The escaped rendering of `s`: the quoted body wrapped in single quotes.
pub open spec fn escape_spec(s: Seq<char>) -> Seq<char> {
    seq!['\''] + escape_body(s) + seq!['\'']
}

proof fn lemma_escape_body_single(c: char)
    ensures
        c == '\'' ==> escape_body(seq![c]) == seq!['\'', '\\', '\'', '\''],
        c != '\'' ==> escape_body(seq![c]) == seq![c],
{
    let s = seq![c];
    assert(s[0] == c);
    assert(s.drop_first() =~= Seq::<char>::empty());
    assert(escape_body(Seq::<char>::empty()) == Seq::<char>::empty());
    if c == '\'' {
        assert(seq!['\'', '\\', '\'', '\''] + Seq::<char>::empty() =~= seq![
            '\'',
            '\\',
            '\'',
            '\'',
        ]);
    } else {
        assert(seq![c] + Seq::<char>::empty() =~= seq![c]);
    }
}

proof fn lemma_escape_body_concat(a: Seq<char>, b: Seq<char>)
    ensures
        escape_body(a + b) == escape_body(a) + escape_body(b),
    decreases a.len(),
{
    if a.len() == 0 {
        assert(a + b =~= b);
        assert(escape_body(a) + escape_body(b) =~= escape_body(b));
    } else {
        lemma_escape_body_concat(a.drop_first(), b);
        assert((a + b).drop_first() =~= a.drop_first() + b);
        assert((a + b)[0] == a[0]);
        let head = if a[0] == '\'' {
            seq!['\'', '\\', '\'', '\'']
        } else {
            seq![a[0]]
        };
        assert(escape_body(a + b) == head + (escape_body(a.drop_first()) + escape_body(b)));
        assert(head + (escape_body(a.drop_first()) + escape_body(b)) =~= (head + escape_body(
            a.drop_first(),
        )) + escape_body(b));
    }
}

/// Escapes a shell argument for single-quoted interpolation.  This
/// performs no validation; it is safe to apply to any string.
pub fn escape_shell_arg(arg: &str) -> (r: String)
    ensures
        r@ == escape_spec(arg@),
{
    let n = arg.unicode_len();
    let mut out = String::from_str("'");
    proof {
        reveal_strlit("'");
        assert(arg@.take(0) =~= Seq::<char>::empty());
        assert(out@ =~= seq!['\''] + escape_body(arg@.take(0)));
    }
    let mut i: usize = 0;
    while i < n
        invariant
            i <= n == arg@.len(),
            out@ == seq!['\''] + escape_body(arg@.take(i as int)),
        decreases n - i,
    {
        let ghost prefix = arg@.take(i as int);
        proof {
            assert(arg@.take(i + 1) =~= prefix + seq![arg@[i as int]]);
            lemma_escape_body_concat(prefix, seq![arg@[i as int]]);
            lemma_escape_body_single(arg@[i as int]);
        }
        let c = arg.get_char(i);
        if c == '\'' {
            out.append("'\\''");
            proof {
                reveal_strlit("'\\''");
                assert("'\\''"@ =~= seq!['\'', '\\', '\'', '\'']);
                assert(escape_body(seq![arg@[i as int]]) =~= seq!['\'', '\\', '\'', '\'']);
                assert(out@ =~= seq!['\''] + escape_body(arg@.take(i + 1)));
            }
        } else {
            let piece = arg.substring_char(i, i + 1);
            out.append(piece);
            proof {
                assert(piece@ =~= seq![arg@[i as int]]);
                assert(escape_body(seq![arg@[i as int]]) =~= seq![arg@[i as int]]);
                assert(out@ =~= seq!['\''] + escape_body(arg@.take(i + 1)));
            }
        }
        i = i + 1;
    }
    out.append("'");
    proof {
        reveal_strlit("'");
        assert(arg@.take(n as int) =~= arg@);
        assert(out@ =~= escape_spec(arg@));
    }
    out
}

/// `r` with `c` put on the front, when `r` succeeded.
pub open spec fn unquote_prepend(c: char, r: Option<Seq<char>>) -> Option<Seq<char>> {
    match r {
        Some(t) => Some(seq![c] + t),
        None => None,
    }
}

/// POSIX-style unquoting of `s`, the inverse of `escape_spec`: inside
/// single quotes every character is literal and a quote closes the string;
/// outside, a quote opens a string, a backslash makes the next character
/// literal, and any other character stands for itself.  `None` when the
/// input ends inside a quote or on a bare backslash.
pub open spec fn shell_unquote_rec(s: Seq<char>, in_quote: bool) -> Option<Seq<char>>
    decreases s.len(),
{
    if s.len() == 0 {
        if in_quote {
            None
        } else {
            Some(Seq::empty())
        }
    } else if in_quote {
        if s[0] == '\'' {
            shell_unquote_rec(s.drop_first(), false)
        } else {
            unquote_prepend(s[0], shell_unquote_rec(s.drop_first(), true))
        }
    } else {
        if s[0] == '\'' {
            shell_unquote_rec(s.drop_first(), true)
        } else if s[0] == '\\' {
            if s.len() >= 2 {
                unquote_prepend(s[1], shell_unquote_rec(s.skip(2), false))
            } else {
                None
            }
        } else {
            unquote_prepend(s[0], shell_unquote_rec(s.drop_first(), false))
        }
    }
}

/// What a POSIX shell reads `s` back as.
pub open spec fn shell_unquote_spec(s: Seq<char>) -> Option<Seq<char>> {
    shell_unquote_rec(s, false)
}

proof fn lemma_unquote_escape_body(s: Seq<char>)
    ensures
        shell_unquote_rec(escape_body(s) + seq!['\''], true) == Some(s),
    decreases s.len(),
{
    let t = escape_body(s) + seq!['\''];
    if s.len() == 0 {
        assert(escape_body(s) == Seq::<char>::empty());
        assert(t =~= seq!['\'']);
        assert(t[0] == '\'');
        assert(t.drop_first() =~= Seq::<char>::empty());
        assert(shell_unquote_rec(Seq::<char>::empty(), false) == Some(Seq::<char>::empty()));
        assert(shell_unquote_rec(t, true) == Some(Seq::<char>::empty()));
        assert(Seq::<char>::empty() =~= s);
    } else {
        lemma_unquote_escape_body(s.drop_first());
        let rest = escape_body(s.drop_first()) + seq!['\''];
        if s[0] == '\'' {
            let head = seq!['\'', '\\', '\'', '\''];
            assert(escape_body(s) == head + escape_body(s.drop_first()));
            assert(t =~= head + rest);
            let t1 = t.drop_first();
            assert(t[0] == '\'');
            assert(t1 =~= seq!['\\', '\'', '\''] + rest);
            assert(t1[0] == '\\');
            assert(t1.len() >= 2);
            assert(t1[1] == '\'');
            let t2 = t1.skip(2);
            assert(t2 =~= seq!['\''] + rest);
            assert(t2[0] == '\'');
            assert(t2.drop_first() =~= rest);
            assert(shell_unquote_rec(t, true) == shell_unquote_rec(t1, false));
            assert(shell_unquote_rec(t1, false) == unquote_prepend(
                '\'',
                shell_unquote_rec(t2, false),
            ));
            assert(shell_unquote_rec(t2, false) == shell_unquote_rec(rest, true));
            assert(seq!['\''] + s.drop_first() =~= s);
        } else {
            assert(escape_body(s) == seq![s[0]] + escape_body(s.drop_first()));
            assert(t =~= seq![s[0]] + rest);
            assert(t[0] == s[0]);
            assert(t.drop_first() =~= rest);
            assert(shell_unquote_rec(t, true) == unquote_prepend(
                s[0],
                shell_unquote_rec(rest, true),
            ));
            assert(seq![s[0]] + s.drop_first() =~= s);
        }
    }
}

/// Escaping round-trips: what the shell reads out of the escaped rendering
/// is exactly the original string.
pub proof fn lemma_escape_round_trip(s: Seq<char>)
    ensures
        shell_unquote_spec(escape_spec(s)) == Some(s),
{
    let t = escape_spec(s);
    assert(t[0] == '\'');
    assert(t.len() > 0);
    assert(t.drop_first() =~= escape_body(s) + seq!['\'']);
    lemma_unquote_escape_body(s);
}

/// Reads a quoted string the way a POSIX shell would; the executable
/// counterpart of `shell_unquote_spec`.
pub fn shell_unquote(s: &str) -> (r: Option<String>)
    ensures
        r is Some <==> shell_unquote_spec(s@) is Some,
        r matches Some(t) ==> shell_unquote_spec(s@) == Some(t@),
{
    let n = s.unicode_len();
    let mut out = String::new();
    let mut in_q = false;
    let mut i: usize = 0;
    proof {
        assert(s@.skip(0) =~= s@);
    }
    while i < n
        invariant
            i <= n == s@.len(),
            shell_unquote_spec(s@) == (match shell_unquote_rec(s@.skip(i as int), in_q) {
                Some(t) => Some(out@ + t),
                None => None::<Seq<char>>,
            }),
        decreases n - i,
    {
        let ghost rem = s@.skip(i as int);
        proof {
            assert(rem[0] == s@[i as int]);
            assert(rem.drop_first() =~= s@.skip(i + 1));
        }
        let c = s.get_char(i);
        if in_q {
            if c == '\'' {
                in_q = false;
                i = i + 1;
            } else {
                let piece = s.substring_char(i, i + 1);
                proof {
                    assert(piece@ =~= seq![s@[i as int]]);
                    let rr = shell_unquote_rec(s@.skip(i + 1), true);
                    if rr is Some {
                        let t = rr.unwrap();
                        assert(out@ + (seq![s@[i as int]] + t) =~= (out@ + piece@) + t);
                    }
                }
                out.append(piece);
                i = i + 1;
            }
        } else {
            if c == '\'' {
                in_q = true;
                i = i + 1;
            } else if c == '\\' {
                if i + 1 < n {
                    proof {
                        assert(rem.len() >= 2);
                        assert(rem[1] == s@[i + 1]);
                        assert(rem.skip(2) =~= s@.skip(i + 2));
                    }
                    let piece = s.substring_char(i + 1, i + 2);
                    proof {
                        assert(piece@ =~= seq![s@[i + 1]]);
                        let rr = shell_unquote_rec(s@.skip(i + 2), false);
                        if rr is Some {
                            let t = rr.unwrap();
                            assert(out@ + (seq![s@[i + 1]] + t) =~= (out@ + piece@) + t);
                        }
                    }
                    out.append(piece);
                    i = i + 2;
                } else {
                    proof {
                        assert(rem.len() == 1);
                    }
                    return None;
                }
            } else {
                let piece = s.substring_char(i, i + 1);
                proof {
                    assert(piece@ =~= seq![s@[i as int]]);
                    let rr = shell_unquote_rec(s@.skip(i + 1), false);
                    if rr is Some {
                        let t = rr.unwrap();
                        assert(out@ + (seq![s@[i as int]] + t) =~= (out@ + piece@) + t);
                    }
                }
                out.append(piece);
                i = i + 1;
            }
        }
    }
    proof {
        assert(s@.skip(n as int) =~= Seq::<char>::empty());
    }
    if in_q {
        None
    } else {
        proof {
            assert(out@ + Seq::<char>::empty() =~= out@);
        }
        Some(out)
    }
}

/// A raw string together with its validated-safe classification and its
/// shell-escaped rendering.  The escaped rendering is what reaches a
/// subprocess argument string.
#[derive(Debug, PartialEq, Eq)]
pub struct ShellArgument {
    /// The string as it was given.
    pub raw: String,
    /// Whether every character of `raw` passes the allow-list.
    pub safe: bool,
    /// The escaped rendering of `raw`.
    pub escaped: String,
}

impl ShellArgument {
    /// The classification and the rendering both belong to `raw`.
    pub open spec fn wf(&self) -> bool {
        &&& self.safe == is_safe_spec(self.raw@)
        &&& self.escaped@ == escape_spec(self.raw@)
    }

    /// Classifies and escapes a raw string.
    pub fn classify(raw: &str) -> (r: ShellArgument)
        ensures
            r.wf(),
            r.raw@ == raw@,
    {
        ShellArgument {
            raw: String::from_str(raw),
            safe: is_safe_shell_input(raw),
            escaped: escape_shell_arg(raw),
        }
    }
}

/// Validates and escapes a shell argument: when `allow_unsafe` is off and
/// the input fails the allow-list, the input is rejected; otherwise the
/// escaped rendering is returned.
pub fn safe_shell_arg(arg: &str, allow_unsafe: bool) -> (r: Result<String, Error>)
    ensures
        r is Ok <==> (allow_unsafe || is_safe_spec(arg@)),
        r matches Ok(t) ==> t@ == escape_spec(arg@),
        r matches Err(e) ==> e matches Error::UnsafeShellInput(raw) && raw@ == arg@,
{
    if !allow_unsafe && !is_safe_shell_input(arg) {
        return Err(Error::UnsafeShellInput(String::from_str(arg)));
    }
    Ok(escape_shell_arg(arg))
}

} // verus!
