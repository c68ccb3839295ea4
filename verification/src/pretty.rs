//! Display names for discovered projects, and the way back from a
//! display name to the project's path.
//!
//! A project's name is the last component of its path. A worktree (a
//! project whose `.git` is a file) drops the `<project>--` prefix of its
//! main repository and is annotated with `[worktree of <project>]`.
//! Projects whose names collide are told apart by the shortest tail of
//! their parent directory that no other colliding project shares.

use vstd::prelude::*;
use crate::path::{
    components, file_name, last_name, last_name_of, parent_components, parent_components_of,
    parent_of, path_components,
};
use crate::text::{
    chars_eq, chars_of, chars_start_with, copy_range, join, join_from, push_all,
    starts_with, string_from_chars, trim, trim_chars, views,
};

verus! {

/// The character sequences held by a sequence of component lists.
pub open spec fn views2(v: Seq<Vec<Vec<char>>>) -> Seq<Seq<Seq<char>>> {
    v.map_values(|x: Vec<Vec<char>>| views(x@))
}

/// The last `d` components of `p` (all of them when it has fewer),
/// joined with `/`.
pub open spec fn tail_text(p: Seq<Seq<char>>, d: int) -> Seq<char> {
    let start = if p.len() >= d { p.len() - d } else { 0 };
    join(p.subrange(start, p.len() as int), seq!['/'])
}

/// At depth `d`, the tail of member `k` differs from the tail of every
/// other member (`m` marks the members of the group).
pub open spec fn unique_at(ps: Seq<Seq<Seq<char>>>, m: Seq<bool>, k: int, d: int) -> bool {
    forall|j: int|
        0 <= j < ps.len() && j != k && m[j] ==> tail_text(#[trigger] ps[j], d) != tail_text(
            ps[k],
            d,
        )
}

/// The largest number of components among the first `n` members.
pub open spec fn member_max_len(ps: Seq<Seq<Seq<char>>>, m: Seq<bool>, n: int) -> nat
    decreases n,
{
    if n <= 0 {
        0
    } else {
        let r = member_max_len(ps, m, n - 1);
        if m[n - 1] && ps[n - 1].len() > r {
            ps[n - 1].len()
        } else {
            r
        }
    }
}

/// The largest number of components among all members.
pub open spec fn group_max_len(ps: Seq<Seq<Seq<char>>>, m: Seq<bool>) -> nat {
    member_max_len(ps, m, ps.len() as int)
}

/// The tail of member `k` at the smallest depth, from `d` up to the
/// largest member length, at which it is unique; empty when there is none.
pub open spec fn suffix_search(ps: Seq<Seq<Seq<char>>>, m: Seq<bool>, k: int, d: int) -> Seq<
    char,
>
    decreases group_max_len(ps, m) + 1 - d,
{
    if d < 1 || d > group_max_len(ps, m) {
        Seq::empty()
    } else if unique_at(ps, m, k, d) {
        tail_text(ps[k], d)
    } else {
        suffix_search(ps, m, k, d + 1)
    }
}

/// The shortest tail of member `k`'s parent components that tells it
/// apart from every other member of its group.
pub open spec fn unique_suffix(ps: Seq<Seq<Seq<char>>>, m: Seq<bool>, k: int) -> Seq<char> {
    suffix_search(ps, m, k, 1)
}

/// The last `d` components of `p`, joined with `/`.
fn tail_of(p: &Vec<Vec<char>>, d: usize) -> (r: Vec<char>)
    ensures
        r@ == tail_text(views(p@), d as int),
{
    let start = if p.len() >= d {
        p.len() - d
    } else {
        0
    };
    join_from(p, start, '/')
}

/// Whether member `k`'s tail at depth `d` is unique in its group.
fn is_unique_at(parents: &Vec<Vec<Vec<char>>>, members: &Vec<bool>, k: usize, d: usize) -> (r:
    bool)
    requires
        members.len() == parents.len(),
        k < parents.len(),
    ensures
        r == unique_at(views2(parents@), members@, k as int, d as int),
{
    let ghost ps = views2(parents@);
    let mine = tail_of(&parents[k], d);
    let mut j: usize = 0;
    while j < parents.len()
        invariant
            members.len() == parents.len(),
            k < parents.len(),
            ps == views2(parents@),
            0 <= j <= parents.len(),
            mine@ == tail_text(ps[k as int], d as int),
            forall|i: int|
                0 <= i < j && i != k && members@[i] ==> tail_text(#[trigger] ps[i], d as int)
                    != tail_text(ps[k as int], d as int),
        decreases parents.len() - j,
    {
        if j != k && members[j] {
            let other = tail_of(&parents[j], d);
            if chars_eq(&other, &mine) {
                assert(ps[j as int] == views(parents@[j as int]@));
                return false;
            }
        }
        j += 1;
    }
    true
}

/// The largest number of components among the members.
fn max_member_len(parents: &Vec<Vec<Vec<char>>>, members: &Vec<bool>) -> (r: usize)
    requires
        members.len() == parents.len(),
    ensures
        r as nat == group_max_len(views2(parents@), members@),
{
    let ghost ps = views2(parents@);
    let mut best: usize = 0;
    let mut j: usize = 0;
    while j < parents.len()
        invariant
            members.len() == parents.len(),
            ps == views2(parents@),
            0 <= j <= parents.len(),
            best as nat == member_max_len(ps, members@, j as int),
        decreases parents.len() - j,
    {
        assert(ps[j as int].len() == parents[j as int].len());
        if members[j] && parents[j].len() > best {
            best = parents[j].len();
        }
        j += 1;
    }
    best
}

/// The shortest tail of member `k`'s parent components that no other
/// member shares.
fn suffix_in_group(parents: &Vec<Vec<Vec<char>>>, members: &Vec<bool>, k: usize) -> (r: Vec<
    char,
>)
    requires
        members.len() == parents.len(),
        k < parents.len(),
    ensures
        r@ == unique_suffix(views2(parents@), members@, k as int),
{
    let ghost ps = views2(parents@);
    let most = max_member_len(parents, members);
    let mut d: usize = 0;
    while d < most
        invariant
            members.len() == parents.len(),
            k < parents.len(),
            ps == views2(parents@),
            most as nat == group_max_len(ps, members@),
            0 <= d <= most,
            unique_suffix(ps, members@, k as int) == suffix_search(
                ps,
                members@,
                k as int,
                d + 1,
            ),
        decreases most - d,
    {
        let depth = d + 1;
        if is_unique_at(parents, members, k, depth) {
            assert(ps[k as int] == views(parents@[k as int]@));
            return tail_of(&parents[k], depth);
        }
        d += 1;
    }
    Vec::new()
}

/// The suffix that tells path `k` apart from the other `paths`: the
/// shortest tail of its parent directory that no other path's parent
/// directory shares, among all of `paths`.
pub open spec fn path_suffix(paths: Seq<Seq<char>>, k: int) -> Seq<char> {
    unique_suffix(
        Seq::new(paths.len(), |x: int| parent_components(paths[x])),
        Seq::new(paths.len(), |x: int| true),
        k,
    )
}

/// For each path, the shortest tail of its parent directory (components
/// joined with `/`) that no other path shares; empty where there is none.
pub fn shortest_unique_suffixes(paths: &Vec<String>) -> (r: Vec<String>)
    ensures
        r.len() == paths.len(),
        forall|k: int|
            0 <= k < paths.len() ==> #[trigger] r[k]@ == path_suffix(
                paths@.map_values(|p: String| p@),
                k,
            ),
{
    let ghost want = Seq::new(paths.len() as nat, |i: int| parent_components(paths[i]@));
    let mut parents: Vec<Vec<Vec<char>>> = Vec::new();
    let mut members: Vec<bool> = Vec::new();
    let mut i: usize = 0;
    while i < paths.len()
        invariant
            0 <= i <= paths.len(),
            parents.len() == i,
            members.len() == i,
            want == Seq::new(paths.len() as nat, |i: int| parent_components(paths[i]@)),
            forall|j: int| 0 <= j < i ==> views2(parents@)[j] == want[j],
            forall|j: int| 0 <= j < i ==> members@[j],
        decreases paths.len() - i,
    {
        let chars = chars_of(paths[i].as_str());
        parents.push(parent_components_of(&chars));
        members.push(true);
        i += 1;
    }
    assert(views2(parents@) =~= want);
    assert(members@ =~= Seq::new(paths.len() as nat, |i: int| true));
    let mut r: Vec<String> = Vec::new();
    let mut k: usize = 0;
    while k < paths.len()
        invariant
            0 <= k <= paths.len(),
            parents.len() == paths.len(),
            members.len() == paths.len(),
            views2(parents@) == want,
            members@ == Seq::new(paths.len() as nat, |i: int| true),
            r.len() == k,
            forall|j: int|
                0 <= j < k ==> #[trigger] r[j]@ == unique_suffix(want, members@, j),
        decreases paths.len() - k,
    {
        let s = suffix_in_group(&parents, &members, k);
        r.push(string_from_chars(s.as_slice()));
        k += 1;
    }
    let ghost texts = paths@.map_values(|p: String| p@);
    assert(want =~= Seq::new(texts.len(), |x: int| parent_components(texts[x])));
    r
}

/// A discovered project: its path, and the contents of its `.git` entry
/// when that entry is a file that could be read (a worktree).
#[derive(Debug, Clone)]
pub struct Project {
    pub path: String,
    pub git_file: Option<String>,
}

/// A discovered project with its computed pretty name.
#[derive(Debug, Clone)]
pub struct PrettyEntry {
    pub path: String,
    pub display_name: String,
}

/// The tag that a worktree's `.git` file starts with.
pub open spec fn gitdir_tag() -> Seq<char> {
    seq!['g', 'i', 't', 'd', 'i', 'r', ':', ' ']
}

/// The name of the main repository that a worktree's `.git` file points
/// to: the file reads `gitdir: <main>/.git/worktrees/<name>`, and the name
/// is the last component of `<main>` (three parents up from the gitdir).
pub open spec fn main_repo_name(content: Seq<char>) -> Option<Seq<char>> {
    let rest = if starts_with(content, gitdir_tag()) {
        content.subrange(gitdir_tag().len() as int, content.len() as int)
    } else {
        content
    };
    match parent_of(components(trim(rest))) {
        Some(a) => match parent_of(a) {
            Some(b) => match parent_of(b) {
                Some(c) => last_name(c),
                None => None,
            },
            None => None,
        },
        None => None,
    }
}

/// The main repository of a project that is a worktree.
pub open spec fn worktree_of(git_file: Option<String>) -> Option<Seq<char>> {
    match git_file {
        Some(c) => main_repo_name(c@),
        None => None,
    }
}

/// The last component of a path, or nothing.
pub open spec fn base_name(path: Seq<char>) -> Seq<char> {
    match file_name(path) {
        Some(n) => n,
        None => Seq::empty(),
    }
}

/// The separator between a main repository's name and a worktree's name.
pub open spec fn worktree_sep() -> Seq<char> {
    seq!['-', '-']
}

/// A project's name before disambiguation: its base name, without the
/// `<project>--` prefix when it is a worktree of `<project>`.
pub open spec fn short_name(p: Project) -> Seq<char> {
    let base = base_name(p.path@);
    match worktree_of(p.git_file) {
        Some(m) => {
            let prefix = m + worktree_sep();
            if starts_with(base, prefix) {
                base.subrange(prefix.len() as int, base.len() as int)
            } else {
                base
            }
        },
        None => base,
    }
}

/// The text that opens a worktree annotation.
pub open spec fn worktree_label() -> Seq<char> {
    seq![' ', '[', 'w', 'o', 'r', 'k', 't', 'r', 'e', 'e', ' ', 'o', 'f', ' ']
}

/// ` [worktree of <project>]` for a worktree of `<project>`, else nothing.
pub open spec fn annotation(p: Project) -> Seq<char> {
    match worktree_of(p.git_file) {
        Some(m) => worktree_label() + m + seq![']'],
        None => Seq::empty(),
    }
}

/// Some other project has the same short name as project `i`.
pub open spec fn collides(ps: Seq<Project>, i: int) -> bool {
    exists|j: int| 0 <= j < ps.len() && j != i && short_name(#[trigger] ps[j]) == short_name(ps[i])
}

/// Marks the projects whose short name is that of project `i`.
pub open spec fn same_name_mask(ps: Seq<Project>, i: int) -> Seq<bool> {
    Seq::new(ps.len(), |j: int| short_name(ps[j]) == short_name(ps[i]))
}

/// The parent components of every project.
pub open spec fn project_parents(ps: Seq<Project>) -> Seq<Seq<Seq<char>>> {
    Seq::new(ps.len(), |j: int| parent_components(ps[j].path@))
}

/// The display name of project `i`: `<name>`, or `<name> (<suffix>)` when
/// its name collides, followed by its worktree annotation.
pub open spec fn display_name(ps: Seq<Project>, i: int) -> Seq<char> {
    if collides(ps, i) {
        short_name(ps[i]) + seq![' ', '('] + unique_suffix(
            project_parents(ps),
            same_name_mask(ps, i),
            i,
        ) + seq![')'] + annotation(ps[i])
    } else {
        short_name(ps[i]) + annotation(ps[i])
    }
}

/// Drops the last component, as `Path::parent` does; `false` when there
/// is no parent.
fn to_parent(comps: &mut Vec<Vec<char>>) -> (r: bool)
    ensures
        r == parent_of(views(old(comps)@)) is Some,
        r ==> Some(views(final(comps)@)) == parent_of(views(old(comps)@)),
{
    let n = comps.len();
    if n == 0 {
        return false;
    }
    let is_root = comps[n - 1].len() == 1 && comps[n - 1][0] == '/';
    assert(is_root == (views(comps@).last() == seq!['/'])) by {
        if is_root {
            assert(comps[n - 1]@ =~= seq!['/']);
        }
        if comps[n - 1]@ == seq!['/'] {
            assert(comps[n - 1]@[0] == '/');
        }
    }
    if is_root {
        return false;
    }
    let ghost before = views(comps@);
    comps.pop();
    assert(views(comps@) =~= before.drop_last());
    true
}

fn main_repo_name_chars(content: &str) -> (r: Option<Vec<char>>)
    ensures
        crate::path::opt_view(r) == main_repo_name(content@),
{
    let c = chars_of(content);
    let tag = chars_of("gitdir: ");
    proof {
        reveal_strlit("gitdir: ");
    }
    assert(tag@ =~= gitdir_tag());
    let rest = if chars_start_with(&c, &tag) {
        copy_range(&c, tag.len(), c.len())
    } else {
        assert(c@.subrange(0, c@.len() as int) =~= c@);
        copy_range(&c, 0, c.len())
    };
    let gitdir = trim_chars(&rest);
    let mut comps = path_components(&gitdir);
    if !to_parent(&mut comps) {
        return None;
    }
    if !to_parent(&mut comps) {
        return None;
    }
    if !to_parent(&mut comps) {
        return None;
    }
    last_name_of(&comps)
}

/// For a worktree, the name of its main repository, read from the contents
/// of its `.git` file (`gitdir: /path/to/main-repo/.git/worktrees/<name>`).
/// `None` when the contents do not name one.
pub fn worktree_main_repo_name(content: &str) -> (r: Option<String>)
    ensures
        r matches Some(s) ==> main_repo_name(content@) == Some(s@),
        r is None ==> main_repo_name(content@) is None,
{
    match main_repo_name_chars(content) {
        Some(v) => Some(string_from_chars(v.as_slice())),
        None => None,
    }
}

/// The short name and the annotation of a project.
fn name_parts(p: &Project) -> (r: (Vec<char>, Vec<char>))
    ensures
        r.0@ == short_name(*p),
        r.1@ == annotation(*p),
{
    let path = chars_of(p.path.as_str());
    let base = match crate::path::file_name_of(&path) {
        Some(n) => n,
        None => Vec::new(),
    };
    assert(base@ == base_name(p.path@));
    match &p.git_file {
        Some(content) => {
            match main_repo_name_chars(content.as_str()) {
                Some(m) => {
                    let mut prefix = copy_range(&m, 0, m.len());
                    assert(m@.subrange(0, m@.len() as int) =~= m@);
                    prefix.push('-');
                    prefix.push('-');
                    assert(prefix@ =~= m@ + worktree_sep());
                    let short = if chars_start_with(&base, &prefix) {
                        copy_range(&base, prefix.len(), base.len())
                    } else {
                        assert(base@.subrange(0, base@.len() as int) =~= base@);
                        copy_range(&base, 0, base.len())
                    };
                    let mut note = chars_of(" [worktree of ");
                    proof {
                        reveal_strlit(" [worktree of ");
                    }
                    assert(note@ =~= worktree_label());
                    push_all(&mut note, &m);
                    note.push(']');
                    assert(note@ =~= worktree_label() + m@ + seq![']']);
                    (short, note)
                },
                None => (base, Vec::new()),
            }
        },
        None => (base, Vec::new()),
    }
}

/// Build pretty names for a list of discovered projects.
///
/// 1. The base display name is the directory's last component.
/// 2. A worktree drops the `<project>--` prefix and is annotated with
///    `[worktree of <project>]`.
/// 3. Names that collide are followed by the shortest tail of the parent
///    directory that tells them apart: `<name> (<suffix>)`.
pub fn build_pretty_names(projects: &Vec<Project>) -> (r: Vec<PrettyEntry>)
    ensures
        r.len() == projects.len(),
        forall|i: int|
            0 <= i < projects.len() ==> (#[trigger] r[i]).path@ == projects[i].path@
                && r[i].display_name@ == display_name(projects@, i),
{
    let ghost ps = projects@;
    let mut shorts: Vec<Vec<char>> = Vec::new();
    let mut notes: Vec<Vec<char>> = Vec::new();
    let mut parents: Vec<Vec<Vec<char>>> = Vec::new();
    let mut i: usize = 0;
    while i < projects.len()
        invariant
            ps == projects@,
            0 <= i <= projects.len(),
            shorts.len() == i,
            notes.len() == i,
            parents.len() == i,
            forall|j: int| 0 <= j < i ==> (#[trigger] shorts@[j])@ == short_name(ps[j]),
            forall|j: int| 0 <= j < i ==> (#[trigger] notes@[j])@ == annotation(ps[j]),
            forall|j: int|
                0 <= j < i ==> views((#[trigger] parents@[j])@) == parent_components(ps[j].path@),
        decreases projects.len() - i,
    {
        let (s, a) = name_parts(&projects[i]);
        shorts.push(s);
        notes.push(a);
        let chars = chars_of(projects[i].path.as_str());
        parents.push(parent_components_of(&chars));
        i += 1;
    }
    assert(views2(parents@) =~= project_parents(ps));
    let mut r: Vec<PrettyEntry> = Vec::new();
    let mut i: usize = 0;
    while i < projects.len()
        invariant
            ps == projects@,
            0 <= i <= projects.len(),
            shorts.len() == projects.len(),
            notes.len() == projects.len(),
            parents.len() == projects.len(),
            forall|j: int| 0 <= j < ps.len() ==> (#[trigger] shorts@[j])@ == short_name(ps[j]),
            forall|j: int| 0 <= j < ps.len() ==> (#[trigger] notes@[j])@ == annotation(ps[j]),
            views2(parents@) == project_parents(ps),
            r.len() == i,
            forall|j: int|
                0 <= j < i ==> (#[trigger] r[j]).path@ == ps[j].path@ && r[j].display_name@
                    == display_name(ps, j),
        decreases projects.len() - i,
    {
        let mut mask: Vec<bool> = Vec::new();
        let mut clash = false;
        let mut j: usize = 0;
        while j < projects.len()
            invariant
                ps == projects@,
                0 <= i < projects.len(),
                0 <= j <= projects.len(),
                shorts.len() == projects.len(),
                forall|k: int| 0 <= k < ps.len() ==> (#[trigger] shorts@[k])@ == short_name(ps[k]),
                mask.len() == j,
                forall|k: int|
                    0 <= k < j ==> mask@[k] == (short_name(ps[k]) == short_name(ps[i as int])),
                clash == exists|k: int|
                    0 <= k < j && k != i && short_name(#[trigger] ps[k]) == short_name(
                        ps[i as int],
                    ),
            decreases projects.len() - j,
        {
            let same = chars_eq(&shorts[j], &shorts[i]);
            assert(same == (short_name(ps[j as int]) == short_name(ps[i as int])));
            mask.push(same);
            if same && j != i {
                clash = true;
            }
            j += 1;
        }
        assert(mask@ =~= same_name_mask(ps, i as int));
        assert(clash == collides(ps, i as int));
        let mut display = copy_range(&shorts[i], 0, shorts[i].len());
        assert(shorts[i as int]@.subrange(0, shorts[i as int]@.len() as int) =~= shorts[i as int]@);
        if clash {
            display.push(' ');
            display.push('(');
            let suffix = suffix_in_group(&parents, &mask, i);
            push_all(&mut display, &suffix);
            display.push(')');
        }
        push_all(&mut display, &notes[i]);
        proof {
            if clash {
                assert(display@ =~= display_name(ps, i as int));
            } else {
                assert(display@ =~= display_name(ps, i as int));
            }
        }
        r.push(
            PrettyEntry {
                path: projects[i].path.clone(),
                display_name: string_from_chars(display.as_slice()),
            },
        );
        i += 1;
    }
    r
}

/// Why a display name could not be resolved.
#[derive(Debug, Clone, Copy, PartialEq, Eq, Structural)]
pub enum ResolveError {
    /// No project has the name.
    NoMatch,
    /// This many projects have the name.
    Ambiguous(usize),
}

/// The indices, below `n` and in increasing order, of the projects whose
/// display name is `name`.
pub open spec fn matching(ps: Seq<Project>, name: Seq<char>, n: int) -> Seq<int>
    decreases n,
{
    if n <= 0 {
        Seq::empty()
    } else {
        let before = matching(ps, name, n - 1);
        if display_name(ps, n - 1) == name {
            before.push(n - 1)
        } else {
            before
        }
    }
}

/// What resolving `name` among `ps` gives: the path of the one project
/// with that display name; no match when there is none; ambiguous, with
/// their number, when there are several.
pub open spec fn resolve_result(ps: Seq<Project>, name: Seq<char>) -> Result<
    Seq<char>,
    ResolveError,
> {
    let ms = matching(ps, name, ps.len() as int);
    if ms.len() == 0 {
        Err(ResolveError::NoMatch)
    } else if ms.len() == 1 {
        Ok(ps[ms[0]].path@)
    } else {
        Err(ResolveError::Ambiguous(ms.len() as usize))
    }
}

proof fn lemma_matching_len(ps: Seq<Project>, name: Seq<char>, n: int)
    ensures
        matching(ps, name, n).len() <= if n < 0 { 0 } else { n },
        forall|k: int|
            0 <= k < matching(ps, name, n).len() ==> 0 <= #[trigger] matching(ps, name, n)[k]
                < n,
    decreases n,
{
    if n > 0 {
        lemma_matching_len(ps, name, n - 1);
    }
}

/// Resolve a pretty name to a project path: the path of the one project
/// whose display name is `pretty_name`, or an error when none or several
/// have it.
pub fn resolve(pretty_name: &str, projects: &Vec<Project>) -> (r: Result<String, ResolveError>)
    ensures
        match r {
            Ok(p) => resolve_result(projects@, pretty_name@) == Ok::<_, ResolveError>(p@),
            Err(e) => resolve_result(projects@, pretty_name@) == Err::<Seq<char>, _>(e),
        },
{
    let ghost ps = projects@;
    let entries = build_pretty_names(projects);
    let want = chars_of(pretty_name);
    let mut count: usize = 0;
    let mut first: usize = 0;
    let mut i: usize = 0;
    while i < entries.len()
        invariant
            ps == projects@,
            entries.len() == projects.len(),
            forall|j: int|
                0 <= j < projects.len() ==> (#[trigger] entries[j]).path@ == ps[j].path@
                    && entries[j].display_name@ == display_name(ps, j),
            0 <= i <= entries.len(),
            count as int == matching(ps, want@, i as int).len(),
            count > 0 ==> first < i && matching(ps, want@, i as int)[0] == first,
        decreases entries.len() - i,
    {
        proof {
            lemma_matching_len(ps, want@, i as int);
        }
        let name = chars_of(entries[i].display_name.as_str());
        if chars_eq(&name, &want) {
            if count == 0 {
                first = i;
            }
            count += 1;
        }
        i += 1;
    }
    proof {
        lemma_matching_len(ps, want@, ps.len() as int);
    }
    if count == 0 {
        Err(ResolveError::NoMatch)
    } else if count == 1 {
        Ok(entries[first].path.clone())
    } else {
        Err(ResolveError::Ambiguous(count))
    }
}

proof fn lemma_matching_single(ps: Seq<Project>, name: Seq<char>, i: int, n: int)
    requires
        0 <= i,
        display_name(ps, i) == name,
        forall|j: int| 0 <= j < n && j != i ==> display_name(ps, j) != name,
    ensures
        matching(ps, name, n) == if i < n {
            seq![i]
        } else {
            Seq::<int>::empty()
        },
    decreases n,
{
    if n > 0 {
        lemma_matching_single(ps, name, i, n - 1);
        if n - 1 == i {
            assert(Seq::<int>::empty().push(i) =~= seq![i]);
        }
    }
}

/// A project whose display name no other project shares is found again
/// from that name: resolving it gives back the project's path.
pub proof fn lemma_resolve_inverts_display_name(ps: Seq<Project>, i: int)
    requires
        0 <= i < ps.len(),
        forall|j: int| 0 <= j < ps.len() && j != i ==> display_name(ps, j) != display_name(ps, i),
    ensures
        resolve_result(ps, display_name(ps, i)) == Ok::<_, ResolveError>(ps[i].path@),
{
    lemma_matching_single(ps, display_name(ps, i), i, ps.len() as int);
}

/// What a finder is given: the display names, one per line.
pub open spec fn finder_lines(entries: Seq<PrettyEntry>) -> Seq<char> {
    join(entries.map_values(|e: PrettyEntry| e.display_name@), seq!['\n'])
}

/// The text handed to a finder: the display names joined with newlines.
pub fn finder_input(entries: &Vec<PrettyEntry>) -> (r: String)
    ensures
        r@ == finder_lines(entries@),
{
    let mut names: Vec<Vec<char>> = Vec::new();
    let mut i: usize = 0;
    while i < entries.len()
        invariant
            0 <= i <= entries.len(),
            views(names@) == entries@.map_values(|e: PrettyEntry| e.display_name@).take(i as int),
        decreases entries.len() - i,
    {
        let ghost before = views(names@);
        names.push(chars_of(entries[i].display_name.as_str()));
        assert(views(names@) =~= before.push(entries@[i as int].display_name@));
        assert(entries@.map_values(|e: PrettyEntry| e.display_name@).take(i + 1) =~= entries@.map_values(
            |e: PrettyEntry| e.display_name@,
        ).take(i as int).push(entries@[i as int].display_name@));
        i += 1;
    }
    assert(entries@.map_values(|e: PrettyEntry| e.display_name@).take(entries.len() as int)
        =~= entries@.map_values(|e: PrettyEntry| e.display_name@));
    assert(views(names@).subrange(0, names.len() as int) =~= views(names@));
    let joined = join_from(&names, 0, '\n');
    string_from_chars(joined.as_slice())
}

/// The name picked in a finder's output: the output trimmed, or nothing
/// when that is empty.
pub fn picked_name(output: &str) -> (r: Option<String>)
    ensures
        match r {
            Some(s) => s@ == trim(output@) && s@.len() > 0,
            None => trim(output@).len() == 0,
        },
{
    let t = trim_chars(&chars_of(output));
    if t.len() == 0 {
        None
    } else {
        Some(string_from_chars(t.as_slice()))
    }
}


/// The pretty-printed JSON text (`serde_json::to_string_pretty`) of an
/// array holding, for each row, an object with its key/value pairs as
/// string members.
pub uninterp spec fn pretty_json_objects(rows: Seq<Seq<(Seq<char>, Seq<char>)>>) -> Seq<char>;

/// The texts of a row of string pairs.
pub open spec fn row_texts(o: Vec<(String, String)>) -> Seq<(Seq<char>, Seq<char>)> {
    o@.map_values(|kv: (String, String)| (kv.0@, kv.1@))
}

/// Renders rows of string pairs as a JSON array of objects with
/// `serde_json`: each row becomes a `serde_json::Map` of string values,
/// the array is printed with `to_string_pretty`. Claims: the text is the
/// pretty JSON of exactly these rows. `serde_json` documents that
/// printing fails only for a failing `Serialize` impl or a map with
/// non-string keys; neither can occur for these values, so the error arm
/// (an empty text) is not reached.
#[verifier::external_body]
fn json_objects_text(rows: &Vec<Vec<(String, String)>>) -> (r: String)
    ensures
        r@ == pretty_json_objects(rows@.map_values(|o: Vec<(String, String)>| row_texts(o))),
{
    let objects: Vec<serde_json::Value> = rows
        .iter()
        .map(|o| {
            serde_json::Value::Object(
                o.iter().map(|(k, v)| (k.clone(), serde_json::Value::String(v.clone()))).collect(),
            )
        })
        .collect();
    serde_json::to_string_pretty(&objects).unwrap_or_default()
}

/// `path`, the key of an entry's path in the JSON listing.
pub open spec fn path_key() -> Seq<char> {
    seq!['p', 'a', 't', 'h']
}

/// `name`, the key of an entry's display name in the JSON listing.
pub open spec fn name_key() -> Seq<char> {
    seq!['n', 'a', 'm', 'e']
}

/// The members of an entry in the JSON listing: its path and its name.
pub open spec fn entry_members(e: PrettyEntry) -> Seq<(Seq<char>, Seq<char>)> {
    seq![(path_key(), e.path@), (name_key(), e.display_name@)]
}

/// The structured listing of `yawn list --json`: a pretty-printed JSON
/// array with, for each entry in order, an object holding its `path` and
/// its display `name`.
pub fn list_json(entries: &Vec<PrettyEntry>) -> (r: String)
    ensures
        r@ == pretty_json_objects(entries@.map_values(|e: PrettyEntry| entry_members(e))),
{
    let ghost want = entries@.map_values(|e: PrettyEntry| entry_members(e));
    let mut rows: Vec<Vec<(String, String)>> = Vec::new();
    let mut i: usize = 0;
    while i < entries.len()
        invariant
            0 <= i <= entries.len(),
            want == entries@.map_values(|e: PrettyEntry| entry_members(e)),
            rows@.map_values(|o: Vec<(String, String)>| row_texts(o)) == want.take(i as int),
        decreases entries.len() - i,
    {
        let ghost before = rows@.map_values(|o: Vec<(String, String)>| row_texts(o));
        let path_k = "path".to_string();
        let name_k = "name".to_string();
        proof {
            reveal_strlit("path");
            reveal_strlit("name");
        }
        let mut row: Vec<(String, String)> = Vec::new();
        row.push((path_k, entries[i].path.clone()));
        row.push((name_k, entries[i].display_name.clone()));
        assert(path_k@ =~= path_key());
        assert(name_k@ =~= name_key());
        assert(row@[0].1@ == entries@[i as int].path@);
        assert(row@[1].1@ == entries@[i as int].display_name@);
        assert(row_texts(row) =~= entry_members(entries@[i as int]));
        rows.push(row);
        assert(rows@.map_values(|o: Vec<(String, String)>| row_texts(o)) =~= before.push(
            row_texts(row),
        ));
        assert(want.take(i + 1) =~= want.take(i as int).push(want[i as int]));
        i += 1;
    }
    assert(want.take(entries.len() as int) =~= want);
    json_objects_text(&rows)
}

} // verus!
