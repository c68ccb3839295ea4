//! Configuration: the fields a config file may set, the defaults that
//! fill the rest, and `~` expansion of the worktree root.

use vstd::prelude::*;
use crate::path::{join_path, path_join};
use crate::text::{chars_of, copy_range, starts_with, string_from_chars};
use crate::worktree::texts;

verus! {

broadcast use vstd::string::group_string_axioms;

/// The `[discovery]` table.
#[derive(Debug)]
pub struct DiscoveryConfig {
    pub max_depth: Option<usize>,
    pub ignore: Option<Vec<String>>,
}

/// The `[session]` table.
#[derive(Debug)]
pub struct SessionConfig {
    pub opener: Option<String>,
    pub finder: Option<String>,
}

/// The `[worktree]` table.
#[derive(Debug)]
pub struct WorktreeConfig {
    pub root: Option<String>,
}

/// A config file as written: every table and field optional.
#[derive(Debug)]
pub struct ConfigFile {
    pub discovery: Option<DiscoveryConfig>,
    pub session: Option<SessionConfig>,
    pub worktree: Option<WorktreeConfig>,
}

impl Default for ConfigFile {
    fn default() -> (r: Self)
        ensures
            r.discovery is None,
            r.session is None,
            r.worktree is None,
    {
        ConfigFile { discovery: None, session: None, worktree: None }
    }
}

/// The resolved configuration.
#[derive(Debug)]
pub struct Config {
    pub max_depth: usize,
    pub ignore: Vec<String>,
    pub opener: Option<String>,
    pub finder: Option<String>,
    pub worktree_root: String,
}

/// The text of an optional string.
pub open spec fn opt_text(o: Option<String>) -> Option<Seq<char>> {
    match o {
        Some(s) => Some(s@),
        None => None,
    }
}

/// The home directory, or `/` when there is none.
pub open spec fn home_or_root(home: Option<Seq<char>>) -> Seq<char> {
    match home {
        Some(h) => h,
        None => seq!['/'],
    }
}

/// `path` with a leading `~` (alone, or followed by `/`) replaced by the
/// home directory; any other path unchanged.
pub open spec fn tilde_expanded(path: Seq<char>, home: Option<Seq<char>>) -> Seq<char> {
    if starts_with(path, seq!['~', '/']) {
        path_join(home_or_root(home), path.subrange(2, path.len() as int))
    } else if path == seq!['~'] {
        home_or_root(home)
    } else {
        path
    }
}

/// The default recursion depth of discovery.
pub open spec fn default_max_depth() -> usize {
    5
}

/// The default directory patterns that discovery skips.
pub open spec fn default_ignore() -> Seq<Seq<char>> {
    seq![".*"@, "node_modules"@]
}

/// The default worktree root: `worktrees` under the home directory.
pub open spec fn default_worktree_root(home: Option<Seq<char>>) -> Seq<char> {
    path_join(home_or_root(home), "worktrees"@)
}

/// `c` holds the defaults, for the home directory `home`.
pub open spec fn is_default_config(c: Config, home: Option<Seq<char>>) -> bool {
    &&& c.max_depth == default_max_depth()
    &&& texts(c.ignore@) == default_ignore()
    &&& c.opener is None
    &&& c.finder is None
    &&& c.worktree_root@ == default_worktree_root(home)
}

/// `c` is what `file` resolves to with the home directory `home`: each
/// field the file sets, the default for each field it leaves out, and the
/// worktree root `~`-expanded.
pub open spec fn resolves_to(file: ConfigFile, home: Option<Seq<char>>, c: Config) -> bool {
    &&& c.max_depth == match file.discovery {
        Some(d) => match d.max_depth {
            Some(m) => m,
            None => default_max_depth(),
        },
        None => default_max_depth(),
    }
    &&& texts(c.ignore@) == match file.discovery {
        Some(d) => match d.ignore {
            Some(v) => texts(v@),
            None => default_ignore(),
        },
        None => default_ignore(),
    }
    &&& opt_text(c.opener) == match file.session {
        Some(s) => opt_text(s.opener),
        None => None,
    }
    &&& opt_text(c.finder) == match file.session {
        Some(s) => opt_text(s.finder),
        None => None,
    }
    &&& c.worktree_root@ == match file.worktree {
        Some(w) => match w.root {
            Some(r) => tilde_expanded(r@, home),
            None => default_worktree_root(home),
        },
        None => default_worktree_root(home),
    }
}

/// The user's home directory, from `dirs::home_dir`, as text. Nothing is
/// claimed of it: it depends on the environment and the user database.
#[verifier::external_body]
fn home_dir() -> Option<String> {
    dirs::home_dir().map(|p| p.to_string_lossy().into_owned())
}

fn copy_opt(o: &Option<String>) -> (r: Option<String>)
    ensures
        opt_text(r) == opt_text(*o),
{
    match o {
        Some(s) => Some(s.clone()),
        None => None,
    }
}

fn copy_strings(v: &Vec<String>) -> (r: Vec<String>)
    ensures
        texts(r@) == texts(v@),
{
    let mut r: Vec<String> = Vec::new();
    let mut i: usize = 0;
    while i < v.len()
        invariant
            0 <= i <= v.len(),
            texts(r@) == texts(v@).take(i as int),
        decreases v.len() - i,
    {
        let c = v[i].clone();
        assert(c@ == v@[i as int]@);
        let ghost before = r@;
        r.push(c);
        assert(r@ == before.push(c));
        assert(texts(r@) =~= texts(before).push(c@));
        assert(texts(v@).take(i + 1) =~= texts(v@).take(i as int).push(texts(v@)[i as int]));
        assert(texts(r@) =~= texts(v@).take(i + 1));
        i += 1;
    }
    assert(texts(v@).take(v.len() as int) =~= texts(v@));
    r
}

fn home_chars(home: Option<&str>) -> (r: Vec<char>)
    ensures
        r@ == home_or_root(
            match home {
                Some(h) => Some(h@),
                None => None,
            },
        ),
{
    match home {
        Some(h) => chars_of(h),
        None => {
            let mut r: Vec<char> = Vec::new();
            r.push('/');
            assert(r@ =~= seq!['/']);
            r
        },
    }
}

/// The view of an optional borrowed string.
pub open spec fn opt_str(o: Option<&str>) -> Option<Seq<char>> {
    match o {
        Some(h) => Some(h@),
        None => None,
    }
}

/// Expand a leading `~` of `path` to `home` (or `/` when there is none).
pub fn expand_tilde_with_home(path: &str, home: Option<&str>) -> (r: String)
    ensures
        r@ == tilde_expanded(path@, opt_str(home)),
{
    let p = chars_of(path);
    if p.len() >= 2 && p[0] == '~' && p[1] == '/' {
        assert(p@.subrange(0, 2) =~= seq!['~', '/']);
        let h = home_chars(home);
        let rest = copy_range(&p, 2, p.len());
        let joined = join_path(&h, &rest);
        return string_from_chars(joined.as_slice());
    }
    if p.len() == 1 && p[0] == '~' {
        assert(p@ =~= seq!['~']);
        let h = home_chars(home);
        return string_from_chars(h.as_slice());
    }
    proof {
        if starts_with(p@, seq!['~', '/']) {
            assert(p@[0] == seq!['~', '/'][0]);
            assert(p@[1] == seq!['~', '/'][1]);
        }
        if p@ == seq!['~'] {
            assert(p@[0] == '~');
        }
    }
    string_from_chars(p.as_slice())
}

/// Expand a leading `~` to the user's home directory. Paths that do not
/// start with `~` are returned unchanged; the home directory is looked up
/// only when needed.
pub fn expand_tilde(path: &str) -> (r: String)
    ensures
        exists|home: Option<Seq<char>>| r@ == tilde_expanded(path@, home),
        !starts_with(path@, seq!['~', '/']) && path@ != seq!['~'] ==> r@ == path@,
{
    let p = chars_of(path);
    let needs_home = (p.len() >= 2 && p[0] == '~' && p[1] == '/') || (p.len() == 1 && p[0]
        == '~');
    if needs_home {
        let home = home_dir();
        let r = match &home {
            Some(h) => expand_tilde_with_home(path, Some(h.as_str())),
            None => expand_tilde_with_home(path, None),
        };
        r
    } else {
        expand_tilde_with_home(path, None)
    }
}

impl Config {
    /// The defaults, for the home directory `home`.
    pub fn defaults_with_home(home: Option<&str>) -> (r: Config)
        ensures
            is_default_config(r, opt_str(home)),
    {
        let mut ignore: Vec<String> = Vec::new();
        ignore.push(".*".to_string());
        ignore.push("node_modules".to_string());
        assert(texts(ignore@) =~= default_ignore());
        let h = home_chars(home);
        let w = chars_of("worktrees");
        let root = join_path(&h, &w);
        Config {
            max_depth: 5,
            ignore,
            opener: None,
            finder: None,
            worktree_root: string_from_chars(root.as_slice()),
        }
    }
}

impl Default for Config {
    /// The defaults, for the user's home directory.
    fn default() -> (r: Self)
        ensures
            exists|home: Option<Seq<char>>| is_default_config(r, home),
    {
        let home = home_dir();
        match &home {
            Some(h) => Config::defaults_with_home(Some(h.as_str())),
            None => Config::defaults_with_home(None),
        }
    }
}

/// Resolve a config file with the home directory `home`: the fields the
/// file sets, the defaults for the others, the worktree root expanded.
pub fn config_from_file(file: &ConfigFile, home: Option<&str>) -> (r: Config)
    ensures
        resolves_to(*file, opt_str(home), r),
{
    let defaults = Config::defaults_with_home(home);
    let max_depth = match &file.discovery {
        Some(d) => match d.max_depth {
            Some(m) => m,
            None => defaults.max_depth,
        },
        None => defaults.max_depth,
    };
    let ignore = match &file.discovery {
        Some(d) => match &d.ignore {
            Some(v) => copy_strings(v),
            None => defaults.ignore,
        },
        None => defaults.ignore,
    };
    let (opener, finder) = match &file.session {
        Some(s) => (copy_opt(&s.opener), copy_opt(&s.finder)),
        None => (None, None),
    };
    let worktree_root = match &file.worktree {
        Some(w) => match &w.root {
            Some(root) => expand_tilde_with_home(root.as_str(), home),
            None => defaults.worktree_root,
        },
        None => defaults.worktree_root,
    };
    Config { max_depth, ignore, opener, finder, worktree_root }
}

/// Resolve a config file with the user's home directory.
pub fn resolve_config(file: &ConfigFile) -> (r: Config)
    ensures
        exists|home: Option<Seq<char>>| resolves_to(*file, home, r),
{
    let home = home_dir();
    match &home {
        Some(h) => config_from_file(file, Some(h.as_str())),
        None => config_from_file(file, None),
    }
}

} // verus!
