//! The command that opens a session: an opener template with `{dir}` and
//! `{name}` filled in, each shell-quoted.

use vstd::prelude::*;
use crate::path::file_name_of;
use crate::text::{
    chars_of, occurs_at, push_all, replace_all, replace_chars, starts_with, string_from_chars,
};
use crate::worktree::project_name;

verus! {

/// A character that needs no quoting in a shell word.
pub open spec fn is_safe_char(c: char) -> bool {
    ||| 'a' <= c <= 'z'
    ||| 'A' <= c <= 'Z'
    ||| '0' <= c <= '9'
    ||| c == '-'
    ||| c == '_'
    ||| c == '/'
    ||| c == '.'
    ||| c == ':'
    ||| c == '@'
    ||| c == '='
    ||| c == '+'
    ||| c == ','
}

/// Every character of `s` is safe.
pub open spec fn all_safe(s: Seq<char>) -> bool {
    forall|i: int| 0 <= i < s.len() ==> is_safe_char(#[trigger] s[i])
}

/// `'`, the single quote.
pub open spec fn quote() -> Seq<char> {
    seq!['\'']
}

/// `'\''`: closes a single-quoted run, puts an escaped quote, reopens.
pub open spec fn escaped_quote() -> Seq<char> {
    seq!['\'', '\\', '\'', '\'']
}

/// `s` made safe for interpolation into `sh -c`: `''` for the empty
/// string; `s` itself when every character is safe; otherwise `s` in
/// single quotes, each `'` in it written `'\''`.
pub open spec fn shell_quoted(s: Seq<char>) -> Seq<char> {
    if s.len() == 0 {
        seq!['\'', '\'']
    } else if all_safe(s) {
        s
    } else {
        quote() + replace_all(s, quote(), escaped_quote()) + quote()
    }
}

/// The text that `sh` reads from `w` when `w` is one word made only of
/// safe characters, backslash escapes (not of a newline) and single-quoted
/// runs; `None` when `w` is not such a word. `quoted` says whether a
/// single-quoted run is open.
pub open spec fn sh_word(w: Seq<char>, quoted: bool) -> Option<Seq<char>>
    decreases w.len(),
{
    if w.len() == 0 {
        if quoted {
            None
        } else {
            Some(Seq::empty())
        }
    } else if quoted {
        if w[0] == '\'' {
            sh_word(w.drop_first(), false)
        } else {
            match sh_word(w.drop_first(), true) {
                Some(r) => Some(seq![w[0]] + r),
                None => None,
            }
        }
    } else if w[0] == '\'' {
        sh_word(w.drop_first(), true)
    } else if w[0] == '\\' && w.len() >= 2 && w[1] != '\n' {
        match sh_word(w.subrange(2, w.len() as int), false) {
            Some(r) => Some(seq![w[1]] + r),
            None => None,
        }
    } else if is_safe_char(w[0]) {
        match sh_word(w.drop_first(), false) {
            Some(r) => Some(seq![w[0]] + r),
            None => None,
        }
    } else {
        None
    }
}

/// The `{dir}` placeholder.
pub open spec fn dir_placeholder() -> Seq<char> {
    seq!['{', 'd', 'i', 'r', '}']
}

/// The `{name}` placeholder.
pub open spec fn name_placeholder() -> Seq<char> {
    seq!['{', 'n', 'a', 'm', 'e', '}']
}

/// `t` with each `{dir}` and `{name}` that occurs in it, found in one
/// left-to-right pass, replaced by `d` and `n`. What comes in from `d` or
/// `n` is not scanned again.
pub open spec fn fill_placeholders(t: Seq<char>, d: Seq<char>, n: Seq<char>) -> Seq<char>
    decreases t.len(),
{
    if t.len() == 0 {
        Seq::empty()
    } else if starts_with(t, dir_placeholder()) {
        d + fill_placeholders(t.subrange(dir_placeholder().len() as int, t.len() as int), d, n)
    } else if starts_with(t, name_placeholder()) {
        n + fill_placeholders(t.subrange(name_placeholder().len() as int, t.len() as int), d, n)
    } else {
        seq![t[0]] + fill_placeholders(t.drop_first(), d, n)
    }
}

/// The command that `build_command` gives: the template with each of its
/// own `{dir}` and `{name}` placeholders replaced by the shell-quoted
/// directory and name, so that each value stays one quoted word.
pub open spec fn command_for(template: Seq<char>, dir: Seq<char>, name: Seq<char>) -> Seq<char> {
    fill_placeholders(template, shell_quoted(dir), shell_quoted(name))
}

/// Whether `c` needs no quoting.
fn char_is_safe(c: char) -> (r: bool)
    ensures
        r == is_safe_char(c),
{
    ('a' <= c && c <= 'z') || ('A' <= c && c <= 'Z') || ('0' <= c && c <= '9') || c == '-' || c
        == '_' || c == '/' || c == '.' || c == ':' || c == '@' || c == '=' || c == '+' || c == ','
}

fn quoted_chars(s: &Vec<char>) -> (r: Vec<char>)
    ensures
        r@ == shell_quoted(s@),
{
    if s.len() == 0 {
        let mut r: Vec<char> = Vec::new();
        r.push('\'');
        r.push('\'');
        assert(r@ =~= seq!['\'', '\'']);
        return r;
    }
    let mut safe = true;
    let mut i: usize = 0;
    while i < s.len()
        invariant
            0 <= i <= s.len(),
            safe == forall|k: int| 0 <= k < i ==> is_safe_char(#[trigger] s@[k]),
        decreases s.len() - i,
    {
        if !char_is_safe(s[i]) {
            safe = false;
        }
        i += 1;
    }
    if safe {
        let mut r: Vec<char> = Vec::new();
        crate::text::push_all(&mut r, s);
        assert(r@ =~= s@);
        return r;
    }
    let mut q: Vec<char> = Vec::new();
    q.push('\'');
    let mut esc: Vec<char> = Vec::new();
    esc.push('\'');
    esc.push('\\');
    esc.push('\'');
    esc.push('\'');
    assert(q@ =~= quote());
    assert(esc@ =~= escaped_quote());
    let inner = replace_chars(s, &q, &esc);
    let mut r: Vec<char> = Vec::new();
    r.push('\'');
    crate::text::push_all(&mut r, &inner);
    r.push('\'');
    assert(r@ =~= quote() + inner@ + quote());
    r
}

/// Shell-quote a string for safe interpolation into `sh -c` commands.
///
/// Strings made only of safe characters are returned as they are.
/// Everything else is wrapped in single quotes with internal `'` escaped.
pub fn shell_quote(s: &str) -> (r: String)
    ensures
        r@ == shell_quoted(s@),
{
    let v = chars_of(s);
    let q = quoted_chars(&v);
    string_from_chars(q.as_slice())
}

/// The template with its placeholders filled in one pass.
fn fill_chars(t: &Vec<char>, dp: &Vec<char>, np: &Vec<char>, d: &Vec<char>, n: &Vec<char>) -> (r:
    Vec<char>)
    requires
        dp@ == dir_placeholder(),
        np@ == name_placeholder(),
    ensures
        r@ == fill_placeholders(t@, d@, n@),
{
    let mut r: Vec<char> = Vec::new();
    let mut i: usize = 0;
    assert(t@.subrange(0, t@.len() as int) =~= t@);
    while i < t.len()
        invariant
            dp@ == dir_placeholder(),
            np@ == name_placeholder(),
            0 <= i <= t.len(),
            r@ + fill_placeholders(t@.subrange(i as int, t@.len() as int), d@, n@)
                == fill_placeholders(t@, d@, n@),
        decreases t.len() - i,
    {
        let ghost rest = t@.subrange(i as int, t@.len() as int);
        let ghost old_r = r@;
        assert(dp@.len() == 5);
        assert(np@.len() == 6);
        if occurs_at(t, dp, i) {
            assert(rest.subrange(0, 5) =~= t@.subrange(i as int, i + 5));
            assert(rest.subrange(5, rest.len() as int) =~= t@.subrange(i + 5, t@.len() as int));
            push_all(&mut r, d);
            i += 5;
            assert(r@ + fill_placeholders(t@.subrange(i as int, t@.len() as int), d@, n@)
                =~= old_r + fill_placeholders(rest, d@, n@));
        } else if occurs_at(t, np, i) {
            assert(rest.subrange(0, 6) =~= t@.subrange(i as int, i + 6));
            assert(rest.subrange(6, rest.len() as int) =~= t@.subrange(i + 6, t@.len() as int));
            proof {
                if starts_with(rest, dir_placeholder()) {
                    assert(rest[1] == 'd');
                    assert(rest[1] == t@[i + 1]);
                    assert(t@.subrange(i as int, i + 6)[1] == 'n');
                }
            }
            push_all(&mut r, n);
            i += 6;
            assert(r@ + fill_placeholders(t@.subrange(i as int, t@.len() as int), d@, n@)
                =~= old_r + fill_placeholders(rest, d@, n@));
        } else {
            proof {
                if starts_with(rest, dir_placeholder()) {
                    assert(rest.subrange(0, 5) =~= t@.subrange(i as int, i + 5));
                }
                if starts_with(rest, name_placeholder()) {
                    assert(rest.subrange(0, 6) =~= t@.subrange(i as int, i + 6));
                }
            }
            assert(rest.drop_first() =~= t@.subrange(i + 1, t@.len() as int));
            r.push(t[i]);
            i += 1;
            assert(r@ + fill_placeholders(t@.subrange(i as int, t@.len() as int), d@, n@)
                =~= old_r + fill_placeholders(rest, d@, n@));
        }
    }
    assert(t@.subrange(t@.len() as int, t@.len() as int) =~= Seq::<char>::empty());
    assert(r@ + Seq::<char>::empty() =~= r@);
    r
}

/// Build the command string by substituting the `{dir}` and `{name}`
/// placeholders of the template with the shell-quoted values, in one pass,
/// so that a value is never itself searched for placeholders.
pub fn build_command(template: &str, dir: &str, name: &str) -> (r: String)
    ensures
        r@ == command_for(template@, dir@, name@),
{
    let t = chars_of(template);
    let d = quoted_chars(&chars_of(dir));
    let n = quoted_chars(&chars_of(name));
    let dp = chars_of("{dir}");
    let np = chars_of("{name}");
    proof {
        reveal_strlit("{dir}");
        reveal_strlit("{name}");
    }
    assert(dp@ =~= dir_placeholder());
    assert(np@ =~= name_placeholder());
    let r = fill_chars(&t, &dp, &np, &d, &n);
    string_from_chars(r.as_slice())
}

/// How a session is opened.
#[derive(Debug, Clone, PartialEq, Eq)]
pub enum OpenPlan {
    /// Run this command with `sh -c`.
    Shell(String),
    /// Start this terminal program (from `$TERMINAL`) in the directory.
    Terminal(String),
    /// Start the platform's default terminal in the directory.
    PlatformDefault,
}

/// How the session for `dir` is opened: with an opener template (the one
/// given for this call, else the configured one), the command built from
/// it, with `{name}` standing for the last component of `dir` (`unknown`
/// when there is none); without one, the `$TERMINAL` program when it is
/// set; else the platform's default terminal.
pub fn plan_open(dir: &str, given: Option<&str>, configured: Option<&str>, terminal: Option<&str>) -> (r:
    OpenPlan)
    ensures
        match (given, configured) {
            (Some(t), _) | (None, Some(t)) => r matches OpenPlan::Shell(c) && c@ == command_for(
                t@,
                dir@,
                project_name(dir@),
            ),
            (None, None) => match terminal {
                Some(x) => r matches OpenPlan::Terminal(s) && s@ == x@,
                None => r == OpenPlan::PlatformDefault,
            },
        },
{
    let template = match given {
        Some(t) => Some(t),
        None => configured,
    };
    match template {
        Some(t) => {
            let d = chars_of(dir);
            let name = match file_name_of(&d) {
                Some(n) => n,
                None => {
                    let u = chars_of("unknown");
                    proof {
                        reveal_strlit("unknown");
                    }
                    assert(u@ =~= seq!['u', 'n', 'k', 'n', 'o', 'w', 'n']);
                    u
                },
            };
            assert(name@ == project_name(dir@));
            let name_text = string_from_chars(name.as_slice());
            OpenPlan::Shell(build_command(t, dir, name_text.as_str()))
        },
        None => match terminal {
            Some(x) => OpenPlan::Terminal(string_from_chars(chars_of(x).as_slice())),
            None => OpenPlan::PlatformDefault,
        },
    }
}

proof fn lemma_safe_word(s: Seq<char>)
    requires
        all_safe(s),
    ensures
        sh_word(s, false) == Some(s),
    decreases s.len(),
{
    if s.len() > 0 {
        assert(is_safe_char(s[0]));
        assert(all_safe(s.drop_first()));
        lemma_safe_word(s.drop_first());
        assert(seq![s[0]] + s.drop_first() =~= s);
    }
}

proof fn lemma_quoted_run(s: Seq<char>)
    ensures
        sh_word(replace_all(s, quote(), escaped_quote()) + quote(), true) == Some(s),
    decreases s.len(),
{
    let rest = s.drop_first();
    let r = replace_all(s, quote(), escaped_quote());
    if s.len() == 0 {
        assert(r == s);
        assert(r + quote() =~= quote());
        assert(quote().drop_first() =~= Seq::<char>::empty());
        assert(sh_word(quote().drop_first(), false) == Some(Seq::<char>::empty()));
        assert(sh_word(quote(), true) == Some(Seq::<char>::empty()));
        assert(s =~= Seq::<char>::empty());
    } else {
        lemma_quoted_run(rest);
        let rr = replace_all(rest, quote(), escaped_quote());
        assert(s.subrange(1, s.len() as int) =~= rest);
        if s[0] == '\'' {
            assert(s.subrange(0, 1) =~= quote());
            assert(r == escaped_quote() + rr);
            let w = r + quote();
            let tail = rr + quote();
            assert(w =~= seq!['\'', '\\', '\'', '\''] + tail);
            let w1 = w.drop_first();
            assert(w1 =~= seq!['\\', '\'', '\''] + tail);
            let w2 = w1.subrange(2, w1.len() as int);
            assert(w2 =~= seq!['\''] + tail);
            assert(w2.drop_first() =~= tail);
            assert(sh_word(tail, true) == Some(rest));
            assert(sh_word(w2, false) == Some(rest));
            assert(w1[0] == '\\' && w1[1] == '\'');
            assert(sh_word(w1, false) == Some(seq!['\''] + rest));
            assert(sh_word(w, true) == sh_word(w1, false));
            assert(seq!['\''] + rest =~= s);
        } else {
            assert(s.subrange(0, 1) != quote()) by {
                assert(s.subrange(0, 1)[0] == s[0]);
            }
            assert(r == seq![s[0]] + rr);
            let w = r + quote();
            assert(w =~= seq![s[0]] + (rr + quote()));
            assert(w.drop_first() =~= rr + quote());
            assert(w[0] == s[0]);
            assert(sh_word(w, true) == Some(seq![s[0]] + rest));
            assert(seq![s[0]] + rest =~= s);
        }
    }
}

/// What `shell_quote` gives is read back by `sh` as exactly one word whose
/// text is the original string: nothing in it is split, expanded or run.
pub proof fn lemma_shell_quote_round_trip(s: Seq<char>)
    ensures
        sh_word(shell_quoted(s), false) == Some(s),
{
    if s.len() == 0 {
        let w = seq!['\'', '\''];
        assert(w.drop_first().drop_first() =~= Seq::<char>::empty());
        assert(w.drop_first() =~= quote());
        assert(sh_word(Seq::<char>::empty(), false) == Some(Seq::<char>::empty()));
        assert(quote().drop_first() =~= Seq::<char>::empty());
        assert(sh_word(quote(), true) == Some(Seq::<char>::empty()));
        assert(sh_word(w.drop_first(), true) == Some(Seq::<char>::empty()));
        assert(sh_word(w, false) == Some(Seq::<char>::empty()));
        assert(s =~= Seq::<char>::empty());
    } else if all_safe(s) {
        lemma_safe_word(s);
    } else {
        lemma_quoted_run(s);
        let w = quote() + replace_all(s, quote(), escaped_quote()) + quote();
        assert(w.drop_first() =~= replace_all(s, quote(), escaped_quote()) + quote());
        assert(w[0] == '\'');
        assert(sh_word(w, false) == Some(s));
    }
}

/// A template without placeholders is run as it is.
pub proof fn lemma_command_without_placeholders(template: Seq<char>, dir: Seq<char>, name: Seq<char>)
    requires
        forall|i: int|
            0 <= i <= template.len() - 5 ==> #[trigger] template.subrange(i, i + 5)
                != dir_placeholder(),
        forall|i: int|
            0 <= i <= template.len() - 6 ==> #[trigger] template.subrange(i, i + 6)
                != name_placeholder(),
    ensures
        command_for(template, dir, name) == template,
{
    lemma_fill_absent(template, shell_quoted(dir), shell_quoted(name));
}

proof fn lemma_fill_absent(t: Seq<char>, d: Seq<char>, n: Seq<char>)
    requires
        forall|i: int|
            0 <= i <= t.len() - 5 ==> #[trigger] t.subrange(i, i + 5) != dir_placeholder(),
        forall|i: int|
            0 <= i <= t.len() - 6 ==> #[trigger] t.subrange(i, i + 6) != name_placeholder(),
    ensures
        fill_placeholders(t, d, n) == t,
    decreases t.len(),
{
    if t.len() > 0 {
        if t.len() >= 5 {
            assert(t.subrange(0int, 0int + 5) != dir_placeholder());
        }
        if t.len() >= 6 {
            assert(t.subrange(0int, 0int + 6) != name_placeholder());
        }
        let u = t.drop_first();
        assert forall|i: int| 0 <= i <= u.len() - 5 implies #[trigger] u.subrange(i, i + 5)
            != dir_placeholder() by {
            assert(u.subrange(i, i + 5) =~= t.subrange(i + 1, i + 1 + 5));
        }
        assert forall|i: int| 0 <= i <= u.len() - 6 implies #[trigger] u.subrange(i, i + 6)
            != name_placeholder() by {
            assert(u.subrange(i, i + 6) =~= t.subrange(i + 1, i + 1 + 6));
        }
        lemma_fill_absent(u, d, n);
        assert(seq![t[0]] + u =~= t);
    }
}

} // verus!
