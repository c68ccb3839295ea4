//! Worktree planning: where a worktree goes, which branch it gets, which
//! files of the main repository are copied into it.

use vstd::prelude::*;
use crate::path::{components, file_name, leading_component, is_kept_piece, is_normal,
    last_name, path_join, join_path, file_name_of};
use crate::text::{
    chars_of, chars_start_with, copy_range, has_char, is_space, lemma_trim_shape, push_all,
    split_chars, split_on, starts_with, string_from_chars, trim, trim_chars, views,
};

verus! {

broadcast use vstd::seq_lib::group_seq_properties;

/// The text held by each string of a sequence.
pub open spec fn texts(v: Seq<String>) -> Seq<Seq<char>> {
    v.map_values(|x: String| x@)
}

/// A line of an include file that names something to copy: not blank
/// (after trimming) and not a `#` comment.
pub open spec fn is_entry_line(l: Seq<char>) -> bool {
    l.len() > 0 && l[0] != '#'
}

/// The entries of an include file: its lines, trimmed, without blank lines
/// and `#` comments, in order. (Splitting on `\n` gives the lines of
/// `str::lines` up to a trailing `\r` and a final empty line, which the
/// trimming and the blank-line rule drop anyway.)
pub open spec fn devwork_entries(content: Seq<char>) -> Seq<Seq<char>> {
    split_on(content, '\n').map_values(|l: Seq<char>| trim(l)).filter(
        |l: Seq<char>| is_entry_line(l),
    )
}

/// Parse an include file and return the list of patterns to copy.
/// Blank lines and lines starting with `#` are ignored.
pub fn parse_devwork(content: &str) -> (r: Vec<String>)
    ensures
        texts(r@) == devwork_entries(content@),
{
    let c = chars_of(content);
    let lines = split_chars(&c, '\n');
    let ghost trimmed = split_on(content@, '\n').map_values(|l: Seq<char>| trim(l));
    let ghost keep = |l: Seq<char>| is_entry_line(l);
    let mut r: Vec<String> = Vec::new();
    let mut i: usize = 0;
    assert(trimmed.take(0).filter(keep) =~= Seq::<Seq<char>>::empty()) by {
        reveal(Seq::filter);
    }
    while i < lines.len()
        invariant
            views(lines@) == split_on(content@, '\n'),
            trimmed == split_on(content@, '\n').map_values(|l: Seq<char>| trim(l)),
            keep == (|l: Seq<char>| is_entry_line(l)),
            0 <= i <= lines.len(),
            texts(r@) == trimmed.take(i as int).filter(keep),
        decreases lines.len() - i,
    {
        proof {
            broadcast use Seq::lemma_filter_push;
        }
        assert(trimmed.take(i + 1) =~= trimmed.take(i as int).push(trimmed[i as int]));
        let t = trim_chars(&lines[i]);
        assert(t@ == trimmed[i as int]);
        let ghost before = texts(r@);
        if t.len() > 0 && t[0] != '#' {
            r.push(string_from_chars(t.as_slice()));
            assert(texts(r@) =~= before.push(t@));
        }
        i += 1;
    }
    assert(trimmed.take(lines.len() as int) =~= trimmed);
    r
}

/// Every entry of an include file is non-blank, has no white space at
/// either end, holds no line break, and is no comment.
pub proof fn lemma_devwork_entries_clean(content: Seq<char>)
    ensures
        forall|k: int|
            0 <= k < devwork_entries(content).len() ==> {
                let e = #[trigger] devwork_entries(content)[k];
                &&& e.len() > 0
                &&& e[0] != '#'
                &&& !is_space(e[0])
                &&& !is_space(e.last())
                &&& !has_char(e, '\n')
            },
{
    broadcast use vstd::seq_lib::group_filter_ensures;

    let pieces = split_on(content, '\n');
    let trimmed = pieces.map_values(|l: Seq<char>| trim(l));
    let keep = |l: Seq<char>| is_entry_line(l);
    let entries = trimmed.filter(keep);
    assert(entries == devwork_entries(content));
    assert forall|k: int| 0 <= k < entries.len() implies {
        let e = #[trigger] entries[k];
        &&& e.len() > 0
        &&& e[0] != '#'
        &&& !is_space(e[0])
        &&& !is_space(e.last())
        &&& !has_char(e, '\n')
    } by {
        let e = entries[k];
        assert(keep(e));
        assert(entries.contains(e));
        trimmed.lemma_filter_contains_rev(keep, e);
        let w = choose|w: int| 0 <= w < trimmed.len() && trimmed[w] == e;
        let piece = pieces[w];
        assert(e == trim(piece));
        lemma_trim_shape(piece);
        crate::suffix_laws::lemma_split_pieces_lack_sep(content, '\n');
        assert(!has_char(piece, '\n'));
        let (i, j) = choose|i: int, j: int|
            0 <= i <= j <= piece.len() && trim(piece) == piece.subrange(i, j);
        if has_char(e, '\n') {
            let x = choose|x: int| 0 <= x < e.len() && e[x] == '\n';
            assert(piece[i + x] == '\n');
        }
    }
}

/// An include file made of two parts joined by a line break lists the
/// entries of the first part followed by those of the second.
pub proof fn lemma_devwork_entries_concat(a: Seq<char>, b: Seq<char>)
    ensures
        devwork_entries(a + seq!['\n'] + b) == devwork_entries(a) + devwork_entries(b),
{
    lemma_split_concat(a, b, '\n');
    let sa = split_on(a, '\n');
    let sb = split_on(b, '\n');
    let f = |l: Seq<char>| trim(l);
    let keep = |l: Seq<char>| is_entry_line(l);
    assert((sa + sb).map_values(f) =~= sa.map_values(f) + sb.map_values(f));
    Seq::filter_distributes_over_add(sa.map_values(f), sb.map_values(f), keep);
}

#[verifier::external_type_specification]
#[verifier::external_body]
pub struct ExGlobSet(globset::GlobSet);

/// Whether globset's `Glob::new` accepts `pattern`.
pub uninterp spec fn glob_is_valid(pattern: Seq<char>) -> bool;

/// Whether globset's `GlobSetBuilder::build` succeeds on a builder holding
/// the one glob `pattern` (it fails when the regex it compiles to is too
/// large or too deeply nested).
pub uninterp spec fn glob_set_builds(pattern: Seq<char>) -> bool;

/// Whether the set built from the one glob `pattern`, with globset's
/// default options, matches the path `path` (`GlobSet::is_match`).
pub uninterp spec fn glob_matches(pattern: Seq<char>, path: Seq<char>) -> bool;

/// An include pattern compiled by globset into a set of one glob, kept
/// with the pattern text it was compiled from.
pub(crate) struct IncludeGlob {
    pattern: String,
    set: globset::GlobSet,
}

impl IncludeGlob {
    /// The pattern text.
    pub(crate) closed spec fn pattern(&self) -> Seq<char> {
        self.pattern@
    }

    /// Compiles `pattern` with globset: `Glob::new`, then a
    /// `GlobSetBuilder` holding that glob, then `build`. Claims: it
    /// succeeds exactly when `Glob::new` accepts the pattern and `build`
    /// succeeds on it; both report failure by an `Err`, which becomes
    /// `None`. The pattern text is kept.
    #[verifier::external_body]
    pub(crate) fn compile(pattern: &str) -> (r: Option<IncludeGlob>)
        ensures
            r is Some <==> (glob_is_valid(pattern@) && glob_set_builds(pattern@)),
            r matches Some(g) ==> g.pattern() == pattern@,
    {
        let glob = match globset::Glob::new(pattern) {
            Ok(g) => g,
            Err(_) => return None,
        };
        let mut builder = globset::GlobSetBuilder::new();
        builder.add(glob);
        match builder.build() {
            Ok(set) => Some(IncludeGlob { pattern: pattern.to_string(), set }),
            Err(_) => None,
        }
    }

    /// Tests a path with globset's `GlobSet::is_match`. Claims: the answer
    /// is whether the glob matches the path; the set was built from the
    /// kept pattern, since `compile` is the only way to make an
    /// `IncludeGlob`.
    #[verifier::external_body]
    pub(crate) fn is_match(&self, path: &str) -> (r: bool)
        ensures
            r == glob_matches(self.pattern(), path@),
    {
        self.set.is_match(path)
    }
}

/// The pattern asks for glob expansion (it holds `*`, `?` or `[`).
pub open spec fn has_glob_chars(p: Seq<char>) -> bool {
    has_char(p, '*') || has_char(p, '?') || has_char(p, '[')
}

/// The files that an include pattern stands for: for a glob, the files of
/// `files` that it matches (none when it is not a valid glob, or when
/// globset cannot build a matcher for it); for a literal path, the path
/// itself when it exists.
pub open spec fn expansion(pattern: Seq<char>, files: Seq<Seq<char>>, literal_exists: bool) -> Seq<
    Seq<char>,
> {
    if has_glob_chars(pattern) {
        if glob_is_valid(pattern) && glob_set_builds(pattern) {
            files.filter(|f: Seq<char>| glob_matches(pattern, f))
        } else {
            Seq::empty()
        }
    } else if literal_exists {
        seq![pattern]
    } else {
        Seq::empty()
    }
}

fn contains_char(s: &Vec<char>, c: char) -> (r: bool)
    ensures
        r == has_char(s@, c),
{
    let mut i: usize = 0;
    while i < s.len()
        invariant
            0 <= i <= s.len(),
            forall|k: int| 0 <= k < i ==> s@[k] != c,
        decreases s.len() - i,
    {
        if s[i] == c {
            return true;
        }
        i += 1;
    }
    false
}

/// Expand an include pattern against the main repository.
///
/// `files` lists the files under the repository (paths relative to it, in
/// the order of the walk); `literal_exists` says whether the pattern, taken
/// as a path relative to the repository, exists. A pattern with glob
/// characters is compiled and kept files are those it matches; one that
/// globset rejects, or cannot build a matcher for, stands for no file. Any
/// other pattern stands for itself when it exists.
pub fn expand_pattern(pattern: &str, files: &Vec<String>, literal_exists: bool) -> (r: Vec<String>)
    ensures
        texts(r@) == expansion(pattern@, texts(files@), literal_exists),
{
    let p = chars_of(pattern);
    let globby = contains_char(&p, '*') || contains_char(&p, '?') || contains_char(&p, '[');
    let mut r: Vec<String> = Vec::new();
    if !globby {
        if literal_exists {
            r.push(string_from_chars(p.as_slice()));
            assert(texts(r@) =~= seq![pattern@]);
        } else {
            assert(texts(r@) =~= Seq::<Seq<char>>::empty());
        }
        return r;
    }
    let compiled = IncludeGlob::compile(pattern);
    match compiled {
        None => {
            assert(texts(r@) =~= Seq::<Seq<char>>::empty());
            r
        },
        Some(g) => {
            let ghost fs = texts(files@);
            let ghost keep = |f: Seq<char>| glob_matches(pattern@, f);
            assert(fs.take(0).filter(keep) =~= Seq::<Seq<char>>::empty()) by {
                reveal(Seq::filter);
            }
            let mut i: usize = 0;
            while i < files.len()
                invariant
                    fs == texts(files@),
                    keep == (|f: Seq<char>| glob_matches(pattern@, f)),
                    g.pattern() == pattern@,
                    0 <= i <= files.len(),
                    texts(r@) == fs.take(i as int).filter(keep),
                decreases files.len() - i,
            {
                proof {
                    broadcast use Seq::lemma_filter_push;
                }
                assert(fs.take(i + 1) =~= fs.take(i as int).push(fs[i as int]));
                let ghost before = texts(r@);
                if g.is_match(files[i].as_str()) {
                    r.push(files[i].clone());
                    assert(texts(r@) =~= before.push(fs[i as int]));
                }
                i += 1;
            }
            assert(fs.take(files.len() as int) =~= fs);
            r
        },
    }
}

/// The name of a project: the last component of its main repository's
/// root, or `unknown`.
pub open spec fn project_name(main_root: Seq<char>) -> Seq<char> {
    match file_name(main_root) {
        Some(n) => n,
        None => seq!['u', 'n', 'k', 'n', 'o', 'w', 'n'],
    }
}

/// The directory name of a project's worktree: `<project>--<name>`.
pub open spec fn worktree_dir_name(main_root: Seq<char>, name: Seq<char>) -> Seq<char> {
    project_name(main_root) + seq!['-', '-'] + name
}

/// Where a project's worktree goes: `<worktree_root>/<project>--<name>`.
pub open spec fn worktree_target(worktree_root: Seq<char>, main_root: Seq<char>, name: Seq<char>) -> Seq<
    char,
> {
    path_join(worktree_root, worktree_dir_name(main_root, name))
}

/// The path of the worktree named `name` of the project whose main
/// repository is at `main_root`, under `worktree_root`.
pub fn worktree_path(worktree_root: &str, main_root: &str, name: &str) -> (r: String)
    ensures
        r@ == worktree_target(worktree_root@, main_root@, name@),
{
    let root = chars_of(main_root);
    let mut dir = match file_name_of(&root) {
        Some(n) => n,
        None => {
            let u = chars_of("unknown");
            proof {
                reveal_strlit("unknown");
            }
            assert(u@ =~= seq!['u', 'n', 'k', 'n', 'o', 'w', 'n']);
            u
        },
    };
    dir.push('-');
    dir.push('-');
    push_all(&mut dir, &chars_of(name));
    assert(dir@ =~= worktree_dir_name(main_root@, name@));
    let base = chars_of(worktree_root);
    let target = join_path(&base, &dir);
    string_from_chars(target.as_slice())
}

/// The short name under which a worktree of the project at `main_root` is
/// offered for completion: its directory name without the `<project>--`
/// prefix (the project being the last component of `main_root`, or empty).
pub open spec fn short_worktree_name(main_root: Seq<char>, worktree: Seq<char>) -> Option<
    Seq<char>,
> {
    let project = match file_name(main_root) {
        Some(n) => n,
        None => Seq::empty(),
    };
    let prefix = project + seq!['-', '-'];
    match file_name(worktree) {
        Some(n) => if starts_with(n, prefix) {
            Some(n.subrange(prefix.len() as int, n.len() as int))
        } else {
            None
        },
        None => None,
    }
}

/// The short name of a worktree of the project at `main_root`, or `None`
/// when the worktree's directory does not carry the project's prefix.
pub fn worktree_short_name(main_root: &str, worktree: &str) -> (r: Option<String>)
    ensures
        match r {
            Some(s) => short_worktree_name(main_root@, worktree@) == Some(s@),
            None => short_worktree_name(main_root@, worktree@) is None,
        },
{
    let mut prefix = match file_name_of(&chars_of(main_root)) {
        Some(n) => n,
        None => Vec::new(),
    };
    let ghost project = match file_name(main_root@) {
        Some(n) => n,
        None => Seq::<char>::empty(),
    };
    assert(prefix@ == project);
    prefix.push('-');
    prefix.push('-');
    assert(prefix@ =~= project + seq!['-', '-']);
    match file_name_of(&chars_of(worktree)) {
        Some(n) => {
            if chars_start_with(&n, &prefix) {
                let s = copy_range(&n, prefix.len(), n.len());
                Some(string_from_chars(s.as_slice()))
            } else {
                None
            }
        },
        None => None,
    }
}

/// How the branch of a new worktree is chosen.
#[derive(Debug, Clone, PartialEq, Eq)]
pub enum BranchPlan {
    /// Check out the existing branch of that name (local, or tracked from
    /// `origin`).
    CheckoutExisting,
    /// Create the branch from the given base.
    NewBranchFrom(String),
    /// Create the branch from the repository's default branch.
    NewBranchFromDefault,
}

/// Branch resolution, in order: an existing local branch, then an existing
/// remote branch, then a new branch from `source` when given, else a new
/// branch from the default branch.
pub fn plan_branch(local_exists: bool, remote_exists: bool, source: Option<&str>) -> (r: BranchPlan)
    ensures
        local_exists || remote_exists ==> r == BranchPlan::CheckoutExisting,
        !local_exists && !remote_exists ==> match source {
            Some(b) => r matches BranchPlan::NewBranchFrom(s) && s@ == b@,
            None => r == BranchPlan::NewBranchFromDefault,
        },
{
    if local_exists || remote_exists {
        BranchPlan::CheckoutExisting
    } else {
        match source {
            Some(b) => BranchPlan::NewBranchFrom(b.to_string()),
            None => BranchPlan::NewBranchFromDefault,
        }
    }
}

proof fn lemma_split_one_piece(b: Seq<char>, sep: char)
    requires
        !has_char(b, sep),
    ensures
        split_on(b, sep) == seq![b],
    decreases b.len(),
{
    if b.len() > 0 {
        assert(b.last() != sep) by {
            assert(b[b.len() - 1] == b.last());
        }
        assert(!has_char(b.drop_last(), sep)) by {
            if has_char(b.drop_last(), sep) {
                let w = choose|w: int| 0 <= w < b.drop_last().len() && b.drop_last()[w] == sep;
                assert(b[w] == sep);
            }
        }
        lemma_split_one_piece(b.drop_last(), sep);
        assert(b.drop_last().push(b.last()) =~= b);
    } else {
        assert(b =~= Seq::<char>::empty());
    }
}

proof fn lemma_split_nonempty(s: Seq<char>, sep: char)
    ensures
        split_on(s, sep).len() >= 1,
    decreases s.len(),
{
    if s.len() > 0 {
        lemma_split_nonempty(s.drop_last(), sep);
    }
}

proof fn lemma_split_concat(a: Seq<char>, b: Seq<char>, sep: char)
    ensures
        split_on(a + seq![sep] + b, sep) == split_on(a, sep) + split_on(b, sep),
    decreases b.len(),
{
    let s = a + seq![sep] + b;
    if b.len() == 0 {
        assert(s.drop_last() =~= a);
        assert(split_on(b, sep) =~= seq![Seq::<char>::empty()]);
        assert(split_on(a, sep).push(Seq::<char>::empty()) =~= split_on(a, sep) + split_on(b, sep));
    } else {
        assert(s.drop_last() =~= a + seq![sep] + b.drop_last());
        lemma_split_concat(a, b.drop_last(), sep);
        lemma_split_nonempty(b.drop_last(), sep);
        let x = split_on(a, sep);
        let y = split_on(b.drop_last(), sep);
        assert(s.last() == b.last());
        if b.last() == sep {
            assert((x + y).push(Seq::<char>::empty()) =~= x + y.push(Seq::<char>::empty()));
        } else {
            let z = x + y;
            assert(z.update(z.len() - 1, z.last().push(b.last())) =~= x + y.update(
                y.len() - 1,
                y.last().push(b.last()),
            ));
        }
    }
}

proof fn lemma_last_component(x: Seq<char>, seg: Seq<char>)
    requires
        x.len() == 0 || x.last() == '/',
        seg.len() > 0,
        seg != seq!['.'],
        !has_char(seg, '/'),
    ensures
        components(x + seg).len() > 0,
        components(x + seg).last() == seg,
{
    broadcast use Seq::filter_distributes_over_add;
    broadcast use Seq::lemma_filter_push;

    let keep = |p: Seq<char>| is_kept_piece(p);
    lemma_split_one_piece(seg, '/');
    if x.len() == 0 {
        assert(x + seg =~= seg);
        assert(Seq::<Seq<char>>::empty().push(seg) =~= seq![seg]);
        assert(seq![seg].filter(keep) == seq![seg]) by {
            reveal(Seq::filter);
            assert(seq![seg].drop_last() =~= Seq::<Seq<char>>::empty());
        }
    } else {
        let x0 = x.drop_last();
        assert(x + seg =~= x0 + seq!['/'] + seg);
        lemma_split_concat(x0, seg, '/');
        assert(seq![seg].filter(keep) == seq![seg]) by {
            reveal(Seq::filter);
            assert(seq![seg].drop_last() =~= Seq::<Seq<char>>::empty());
        }
        let f = split_on(x0, '/').filter(keep);
        assert(split_on(x + seg, '/').filter(keep) == f + seq![seg]);
    }
    let c = components(x + seg);
    let lead = leading_component(x + seg);
    assert(c == lead + split_on(x + seg, '/').filter(keep));
}

/// `refs/remotes/origin/`, the prefix of what `origin/HEAD` points at.
pub open spec fn origin_prefix() -> Seq<char> {
    seq!['r', 'e', 'f', 's', '/', 'r', 'e', 'm', 'o', 't', 'e', 's', '/', 'o', 'r', 'i', 'g', 'i', 'n', '/']
}

/// The default branch: the branch that `origin/HEAD` points at, when it
/// points into `refs/remotes/origin/`; else `main` when it exists, else
/// `master` when it exists; else none.
pub open spec fn default_branch_of(origin_head: Option<Seq<char>>, main_exists: bool, master_exists: bool) -> Option<
    Seq<char>,
> {
    if origin_head is Some && starts_with(origin_head->0, origin_prefix()) {
        Some(origin_head->0.subrange(origin_prefix().len() as int, origin_head->0.len() as int))
    } else if main_exists {
        Some(seq!['m', 'a', 'i', 'n'])
    } else if master_exists {
        Some(seq!['m', 'a', 's', 't', 'e', 'r'])
    } else {
        None
    }
}

/// Chooses the repository's default branch from where `origin/HEAD`
/// points (`None` when it is not set) and whether a `main` or a `master`
/// branch exists, locally or on `origin`.
pub fn default_branch(origin_head: Option<&str>, main_exists: bool, master_exists: bool) -> (r:
    Option<String>)
    ensures
        match r {
            Some(b) => default_branch_of(crate::config::opt_str(origin_head), main_exists, master_exists)
                == Some(b@),
            None => default_branch_of(crate::config::opt_str(origin_head), main_exists, master_exists) is None,
        },
{
    let prefix = chars_of("refs/remotes/origin/");
    proof {
        reveal_strlit("refs/remotes/origin/");
    }
    assert(prefix@ =~= origin_prefix());
    if let Some(h) = origin_head {
        let hc = chars_of(h);
        if chars_start_with(&hc, &prefix) {
            let rest = copy_range(&hc, prefix.len(), hc.len());
            return Some(string_from_chars(rest.as_slice()));
        }
    }
    if main_exists {
        let m = chars_of("main");
        proof {
            reveal_strlit("main");
        }
        assert(m@ =~= seq!['m', 'a', 'i', 'n']);
        Some(string_from_chars(m.as_slice()))
    } else if master_exists {
        let m = chars_of("master");
        proof {
            reveal_strlit("master");
        }
        assert(m@ =~= seq!['m', 'a', 's', 't', 'e', 'r']);
        Some(string_from_chars(m.as_slice()))
    } else {
        None
    }
}

/// A worktree made for `name` is offered back under `name` when
/// completing: stripping the project prefix from the directory that
/// `worktree_path` gives yields `name` again, for any name without `/`
/// of a project whose root has a last component.
pub proof fn lemma_worktree_name_round_trip(
    worktree_root: Seq<char>,
    main_root: Seq<char>,
    name: Seq<char>,
)
    requires
        file_name(main_root) is Some,
        !has_char(name, '/'),
    ensures
        short_worktree_name(main_root, worktree_target(worktree_root, main_root, name)) == Some(
            name,
        ),
{
    let p = file_name(main_root)->0;
    crate::suffix_laws::lemma_components_well_formed(main_root);
    let comps = components(main_root);
    assert(p == comps[comps.len() - 1]);
    assert(p.len() > 0);
    assert(!has_char(p, '/'));
    let prefix = p + seq!['-', '-'];
    let seg = prefix + name;
    assert(seg == worktree_dir_name(main_root, name));
    assert(!has_char(seg, '/')) by {
        if has_char(seg, '/') {
            let w = choose|w: int| 0 <= w < seg.len() && seg[w] == '/';
            if w < p.len() {
                assert(p[w] == '/');
            } else if w >= prefix.len() {
                assert(name[w - prefix.len()] == '/');
            }
        }
    }
    assert(seg.len() >= 3);
    assert(seg != seq!['.']);
    assert(seg[0] != '/') by {
        assert(seg[0] == p[0]);
        assert(!has_char(p, '/'));
        if p[0] == '/' {
            assert(has_char(p, '/'));
        }
    }
    let target = worktree_target(worktree_root, main_root, name);
    if worktree_root.len() > 0 && worktree_root.last() != '/' {
        let x = worktree_root + seq!['/'];
        assert(target =~= x + seg);
        lemma_last_component(x, seg);
    } else {
        assert(target =~= worktree_root + seg);
        lemma_last_component(worktree_root, seg);
    }
    assert(is_normal(seg)) by {
        assert(seg.len() != 1 && seg.len() != 2);
    }
    assert(file_name(target) == Some(seg));
    assert(seg.subrange(0, prefix.len() as int) =~= prefix);
    assert(seg.subrange(prefix.len() as int, seg.len() as int) =~= name);
}


/// Deleting the worktree named `name` works on the directory that creating
/// it made (both place it with `worktree_path`), and on no other
/// worktree's: different names give different worktree directories.
pub proof fn lemma_worktree_targets_distinct(
    worktree_root: Seq<char>,
    main_root: Seq<char>,
    name: Seq<char>,
    other: Seq<char>,
)
    requires
        name != other,
    ensures
        worktree_target(worktree_root, main_root, name) != worktree_target(
            worktree_root,
            main_root,
            other,
        ),
{
    let p = project_name(main_root);
    match file_name(main_root) {
        Some(n) => {
            crate::suffix_laws::lemma_components_well_formed(main_root);
            let comps = components(main_root);
            assert(n == comps[comps.len() - 1]);
            assert(p.len() > 0);
            assert(!has_char(p, '/'));
            assert(p[0] != '/') by {
                if p[0] == '/' {
                    assert(has_char(p, '/'));
                }
            }
        },
        None => {
            assert(p.len() > 0 && p[0] != '/');
        },
    }
    let s1 = worktree_dir_name(main_root, name);
    let s2 = worktree_dir_name(main_root, other);
    assert(s1[0] == p[0] && s2[0] == p[0]);
    let base = if worktree_root.len() > 0 && worktree_root.last() != '/' {
        worktree_root + seq!['/']
    } else {
        worktree_root
    };
    let t1 = worktree_target(worktree_root, main_root, name);
    let t2 = worktree_target(worktree_root, main_root, other);
    assert(t1 =~= base + s1);
    assert(t2 =~= base + s2);
    if t1 == t2 {
        assert(s1 =~= t1.subrange(base.len() as int, t1.len() as int));
        assert(s2 =~= t2.subrange(base.len() as int, t2.len() as int));
        let k: int = p.len() as int + 2;
        assert(name =~= s1.subrange(k, s1.len() as int));
        assert(other =~= s2.subrange(k, s2.len() as int));
    }
}


/// `refs/remotes/origin/` written out.
pub open spec fn origin_refs() -> Seq<char> {
    seq!['r', 'e', 'f', 's', '/', 'r', 'e', 'm', 'o', 't', 'e', 's', '/', 'o', 'r', 'i', 'g', 'i', 'n', '/']
}

/// When `origin/HEAD` points at `refs/remotes/origin/<b>`, the default
/// branch is `<b>`, whatever local `main` and `master` branches exist;
/// `main`, then `master`, are consulted only when `origin/HEAD` names no
/// branch of `origin`, and with neither there is no default.
pub proof fn lemma_default_branch_prefers_origin_head(
    b: Seq<char>,
    other: Option<Seq<char>>,
    main_exists: bool,
    master_exists: bool,
)
    requires
        other matches Some(h) ==> !(h.len() >= 20 && h.subrange(0, 20) == origin_refs()),
    ensures
        default_branch_of(Some(origin_refs() + b), main_exists, master_exists) == Some(b),
        default_branch_of(other, main_exists, master_exists) == if main_exists {
            Some(seq!['m', 'a', 'i', 'n'])
        } else if master_exists {
            Some(seq!['m', 'a', 's', 't', 'e', 'r'])
        } else {
            None
        },
{
    let h = origin_refs() + b;
    assert(origin_prefix() =~= origin_refs());
    assert(h.subrange(0, 20) =~= origin_refs());
    assert(h.subrange(20, h.len() as int) =~= b);
}

/// A pattern holding `*`, `?` or `[` is a glob: whether a file of that
/// literal name exists does not matter, every file it yields is one of
/// the listed files that the glob matches, and when globset takes the
/// glob, every listed file that it matches is yielded.
pub proof fn lemma_glob_patterns_match_files(
    pattern: Seq<char>,
    files: Seq<Seq<char>>,
    literal_exists: bool,
)
    requires
        has_char(pattern, '*') || has_char(pattern, '?') || has_char(pattern, '['),
    ensures
        expansion(pattern, files, literal_exists) == expansion(pattern, files, !literal_exists),
        forall|k: int|
            0 <= k < expansion(pattern, files, literal_exists).len() ==> {
                let f = #[trigger] expansion(pattern, files, literal_exists)[k];
                files.contains(f) && glob_matches(pattern, f)
            },
        glob_is_valid(pattern) && glob_set_builds(pattern) ==> forall|k: int|
            0 <= k < files.len() && glob_matches(pattern, #[trigger] files[k]) ==> expansion(
                pattern,
                files,
                literal_exists,
            ).contains(files[k]),
{
    broadcast use vstd::seq_lib::group_filter_ensures;

    let r = expansion(pattern, files, literal_exists);
    let keep = |f: Seq<char>| glob_matches(pattern, f);
    if glob_is_valid(pattern) && glob_set_builds(pattern) {
        assert(r == files.filter(keep));
        assert forall|k: int| 0 <= k < r.len() implies {
            let f = #[trigger] r[k];
            files.contains(f) && glob_matches(pattern, f)
        } by {
            assert(r.contains(r[k]));
            files.lemma_filter_contains_rev(keep, r[k]);
        }
        assert forall|k: int|
            0 <= k < files.len() && glob_matches(pattern, #[trigger] files[k]) implies r.contains(
            files[k],
        ) by {
            files.lemma_filter_contains(keep, k);
        }
    } else {
        assert(r =~= Seq::<Seq<char>>::empty());
    }
}

} // verus!
