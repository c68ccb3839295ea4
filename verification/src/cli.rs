//! The command line: subcommands, their flags, options and arguments, and
//! the parse from the argument list to a command.
//!
//! The grammar: the first argument after the program name is a subcommand
//! (or `-h`/`--help`, `-V`/`--version`, `help [<subcommand>]`). After it:
//! `--name` and `--name=value` long options; `-x` short options, several
//! flags in one argument (`-ab`), a short option's value attached (`-Pvalue`,
//! `-P=value`) or in the next argument; `--` makes every later argument
//! positional; `-h`/`--help` asks for the subcommand's help. An option may
//! be given once; an option's value may not start with `-` unless it is `-`
//! itself; path values may not be empty.

use vstd::prelude::*;
use crate::config::opt_text;
use crate::text::{chars_eq, chars_of, copy_range, string_from_chars};

verus! {

broadcast use vstd::string::group_string_axioms;

/// A subcommand.
#[derive(Debug, Clone, Copy, PartialEq, Eq, Structural)]
pub enum Subcommand {
    List,
    Resolve,
    Open,
    Create,
    Pick,
    Delete,
    Complete,
}

/// A parsed command line.
#[derive(Debug)]
pub struct Cli {
    pub command: Command,
}

/// A subcommand with its arguments.
#[derive(Debug)]
pub enum Command {
    /// Recursively discover git projects under a directory.
    List { path: Option<String>, pretty: bool, json: bool, porcelain: bool },
    /// Map a pretty name back to an absolute path.
    Resolve { name: String, path: Option<String> },
    /// Open a terminal in the given directory.
    Open { path: String, command: Option<String> },
    /// Create a git worktree for the current project.
    Create { name: String, source: Option<String>, open: bool },
    /// Interactively pick a project and open a terminal in it.
    Pick { path: Option<String>, finder: Option<String> },
    /// Remove a worktree for the current project.
    Delete { name: String },
    /// Output completion candidates.
    Complete { subcommand: String },
}

/// An option of a subcommand: its short letter, its long name, whether it
/// takes a value, and whether that value is a path (which may not be
/// empty).
pub struct OptDef {
    pub short: Option<char>,
    pub long: Seq<char>,
    pub valued: bool,
    pub path: bool,
}

/// A positional argument: its name, whether it is required, whether it is
/// a path.
pub struct PosDef {
    pub name: Seq<char>,
    pub required: bool,
    pub path: bool,
}

/// The options of each subcommand (besides `-h`/`--help`).
pub open spec fn opt_defs(s: Subcommand) -> Seq<OptDef> {
    match s {
        Subcommand::List => seq![
            OptDef { short: Some('p'), long: "pretty"@, valued: false, path: false },
            OptDef { short: None, long: "json"@, valued: false, path: false },
            OptDef { short: None, long: "porcelain"@, valued: false, path: false },
        ],
        Subcommand::Resolve => seq![
            OptDef { short: Some('P'), long: "path"@, valued: true, path: true },
        ],
        Subcommand::Open => seq![
            OptDef { short: Some('c'), long: "command"@, valued: true, path: false },
        ],
        Subcommand::Create => seq![
            OptDef { short: Some('s'), long: "source"@, valued: true, path: false },
            OptDef { short: Some('o'), long: "open"@, valued: false, path: false },
        ],
        Subcommand::Pick => seq![
            OptDef { short: Some('F'), long: "finder"@, valued: true, path: false },
        ],
        Subcommand::Delete => Seq::empty(),
        Subcommand::Complete => Seq::empty(),
    }
}

/// The positional argument of each subcommand.
pub open spec fn pos_defs(s: Subcommand) -> Seq<PosDef> {
    match s {
        Subcommand::List => seq![PosDef { name: "PATH"@, required: false, path: true }],
        Subcommand::Resolve => seq![PosDef { name: "NAME"@, required: true, path: false }],
        Subcommand::Open => seq![PosDef { name: "PATH"@, required: true, path: true }],
        Subcommand::Create => seq![PosDef { name: "NAME"@, required: true, path: false }],
        Subcommand::Pick => seq![PosDef { name: "PATH"@, required: false, path: true }],
        Subcommand::Delete => seq![PosDef { name: "NAME"@, required: true, path: false }],
        Subcommand::Complete => seq![
            PosDef { name: "SUBCOMMAND"@, required: true, path: false },
        ],
    }
}

/// The subcommand called `t`, if any.
pub open spec fn subcommand_named(t: Seq<char>) -> Option<Subcommand> {
    if t == "list"@ {
        Some(Subcommand::List)
    } else if t == "resolve"@ {
        Some(Subcommand::Resolve)
    } else if t == "open"@ {
        Some(Subcommand::Open)
    } else if t == "create"@ {
        Some(Subcommand::Create)
    } else if t == "pick"@ {
        Some(Subcommand::Pick)
    } else if t == "delete"@ {
        Some(Subcommand::Delete)
    } else if t == "complete"@ {
        Some(Subcommand::Complete)
    } else {
        None
    }
}

/// Why a command line gives no command.
pub enum CliFailure {
    /// Help was asked for (of a subcommand, or overall).
    Help(Option<Subcommand>),
    /// The version was asked for.
    Version,
    /// No subcommand was given.
    MissingSubcommand,
    /// The subcommand is not known.
    UnknownSubcommand(Seq<char>),
    /// An argument that is no option of the subcommand, or one positional
    /// argument too many.
    UnknownArgument(Seq<char>),
    /// The option (by long name) takes a value that is missing.
    MissingValue(Seq<char>),
    /// The flag (by long name) was given a value.
    UnexpectedValue(Seq<char>),
    /// The option (by long name) was given twice.
    Duplicate(Seq<char>),
    /// The path argument (by name) is empty.
    EmptyValue(Seq<char>),
    /// The required argument (by name) is missing.
    MissingRequired(Seq<char>),
}

/// Why a command line gives no command.
#[derive(Debug, Clone, PartialEq, Eq)]
pub enum CliError {
    Help(Option<Subcommand>),
    Version,
    MissingSubcommand,
    UnknownSubcommand(String),
    UnknownArgument(String),
    MissingValue(String),
    UnexpectedValue(String),
    Duplicate(String),
    EmptyValue(String),
    MissingRequired(String),
}

impl View for CliError {
    type V = CliFailure;

    open spec fn view(&self) -> CliFailure {
        match self {
            CliError::Help(s) => CliFailure::Help(*s),
            CliError::Version => CliFailure::Version,
            CliError::MissingSubcommand => CliFailure::MissingSubcommand,
            CliError::UnknownSubcommand(t) => CliFailure::UnknownSubcommand(t@),
            CliError::UnknownArgument(t) => CliFailure::UnknownArgument(t@),
            CliError::MissingValue(t) => CliFailure::MissingValue(t@),
            CliError::UnexpectedValue(t) => CliFailure::UnexpectedValue(t@),
            CliError::Duplicate(t) => CliFailure::Duplicate(t@),
            CliError::EmptyValue(t) => CliFailure::EmptyValue(t@),
            CliError::MissingRequired(t) => CliFailure::MissingRequired(t@),
        }
    }
}

/// What has been read of a subcommand's arguments: whether `--` was seen,
/// the option waiting for its value, each flag, each option's value, the
/// positional arguments.
pub struct ParseState {
    pub escaped: bool,
    pub pending: Option<int>,
    pub flags: Seq<bool>,
    pub values: Seq<Option<Seq<char>>>,
    pub positionals: Seq<Seq<char>>,
}

/// Nothing read yet.
pub open spec fn initial_state(s: Subcommand) -> ParseState {
    ParseState {
        escaped: false,
        pending: None,
        flags: Seq::new(opt_defs(s).len(), |i: int| false),
        values: Seq::new(opt_defs(s).len(), |i: int| None),
        positionals: Seq::empty(),
    }
}

/// The first option, from index `from` on, whose long name is `name`.
pub open spec fn find_long(defs: Seq<OptDef>, name: Seq<char>, from: int) -> Option<int>
    decreases defs.len() - from,
{
    if from < 0 || from >= defs.len() {
        None
    } else if defs[from].long == name {
        Some(from)
    } else {
        find_long(defs, name, from + 1)
    }
}

/// The first option, from index `from` on, whose short letter is `c`.
pub open spec fn find_short(defs: Seq<OptDef>, c: char, from: int) -> Option<int>
    decreases defs.len() - from,
{
    if from < 0 || from >= defs.len() {
        None
    } else if defs[from].short == Some(c) {
        Some(from)
    } else {
        find_short(defs, c, from + 1)
    }
}

/// Option `i` has already been given.
pub open spec fn is_given(s: Subcommand, st: ParseState, i: int) -> bool {
    if opt_defs(s)[i].valued {
        st.values[i] is Some
    } else {
        st.flags[i]
    }
}

/// Gives option `i` the value `v`.
pub open spec fn set_value(s: Subcommand, st: ParseState, i: int, v: Seq<char>) -> Result<
    ParseState,
    CliFailure,
> {
    if opt_defs(s)[i].path && v.len() == 0 {
        Err(CliFailure::EmptyValue(opt_defs(s)[i].long))
    } else {
        Ok(ParseState { pending: None, values: st.values.update(i, Some(v)), ..st })
    }
}

/// Reads a positional argument.
pub open spec fn take_positional(s: Subcommand, st: ParseState, t: Seq<char>) -> Result<
    ParseState,
    CliFailure,
> {
    if st.positionals.len() < pos_defs(s).len() {
        let d = pos_defs(s)[st.positionals.len() as int];
        if d.path && t.len() == 0 {
            Err(CliFailure::EmptyValue(d.name))
        } else {
            Ok(ParseState { positionals: st.positionals.push(t), ..st })
        }
    } else {
        Err(CliFailure::UnknownArgument(t))
    }
}

/// The index of the first `=` in `body`, if any.
pub open spec fn first_eq(body: Seq<char>, from: int) -> Option<int>
    decreases body.len() - from,
{
    if from < 0 || from >= body.len() {
        None
    } else if body[from] == '=' {
        Some(from)
    } else {
        first_eq(body, from + 1)
    }
}

/// Reads a long option `--body` (the whole argument is `t`).
pub open spec fn take_long(s: Subcommand, st: ParseState, body: Seq<char>, t: Seq<char>) -> Result<
    ParseState,
    CliFailure,
> {
    let (name, value) = match first_eq(body, 0) {
        Some(k) => (body.subrange(0, k), Some(body.subrange(k + 1, body.len() as int))),
        None => (body, None),
    };
    if name == "help"@ {
        if value is None {
            Err(CliFailure::Help(Some(s)))
        } else {
            Err(CliFailure::UnexpectedValue(name))
        }
    } else {
        match find_long(opt_defs(s), name, 0) {
            None => Err(CliFailure::UnknownArgument(t)),
            Some(i) => if is_given(s, st, i) {
                Err(CliFailure::Duplicate(opt_defs(s)[i].long))
            } else if !opt_defs(s)[i].valued {
                if value is Some {
                    Err(CliFailure::UnexpectedValue(opt_defs(s)[i].long))
                } else {
                    Ok(ParseState { flags: st.flags.update(i, true), ..st })
                }
            } else {
                match value {
                    Some(v) => set_value(s, st, i, v),
                    None => Ok(ParseState { pending: Some(i), ..st }),
                }
            },
        }
    }
}

/// Reads the letters `cs` of a short-option argument.
pub open spec fn take_shorts(s: Subcommand, st: ParseState, cs: Seq<char>) -> Result<
    ParseState,
    CliFailure,
>
    decreases cs.len(),
{
    if cs.len() == 0 {
        Ok(st)
    } else if cs[0] == 'h' {
        Err(CliFailure::Help(Some(s)))
    } else {
        match find_short(opt_defs(s), cs[0], 0) {
            None => Err(CliFailure::UnknownArgument(seq!['-', cs[0]])),
            Some(i) => if is_given(s, st, i) {
                Err(CliFailure::Duplicate(opt_defs(s)[i].long))
            } else if !opt_defs(s)[i].valued {
                take_shorts(s, ParseState { flags: st.flags.update(i, true), ..st }, cs.drop_first())
            } else {
                let rest = cs.drop_first();
                if rest.len() == 0 {
                    Ok(ParseState { pending: Some(i), ..st })
                } else if rest[0] == '=' {
                    set_value(s, st, i, rest.drop_first())
                } else {
                    set_value(s, st, i, rest)
                }
            },
        }
    }
}

/// An argument that looks like an option (`-` followed by something).
pub open spec fn looks_like_option(t: Seq<char>) -> bool {
    t.len() >= 2 && t[0] == '-'
}

/// Reads one argument of a subcommand.
pub open spec fn take_token(s: Subcommand, st: ParseState, t: Seq<char>) -> Result<
    ParseState,
    CliFailure,
> {
    match st.pending {
        Some(i) => if looks_like_option(t) {
            Err(CliFailure::MissingValue(opt_defs(s)[i].long))
        } else {
            set_value(s, st, i, t)
        },
        None => if st.escaped {
            take_positional(s, st, t)
        } else if t == seq!['-', '-'] {
            Ok(ParseState { escaped: true, ..st })
        } else if t.len() > 2 && t[0] == '-' && t[1] == '-' {
            take_long(s, st, t.subrange(2, t.len() as int), t)
        } else if looks_like_option(t) {
            take_shorts(s, st, t.drop_first())
        } else {
            take_positional(s, st, t)
        },
    }
}

/// Reads the arguments `toks` of a subcommand in order.
pub open spec fn take_all(s: Subcommand, st: ParseState, toks: Seq<Seq<char>>) -> Result<
    ParseState,
    CliFailure,
>
    decreases toks.len(),
{
    if toks.len() == 0 {
        Ok(st)
    } else {
        match take_token(s, st, toks[0]) {
            Ok(next) => take_all(s, next, toks.drop_first()),
            Err(e) => Err(e),
        }
    }
}

/// Checks that nothing is left waiting and that required arguments came.
pub open spec fn finish(s: Subcommand, st: ParseState) -> Result<ParseState, CliFailure> {
    match st.pending {
        Some(i) => Err(CliFailure::MissingValue(opt_defs(s)[i].long)),
        None => if st.positionals.len() < pos_defs(s).len() && pos_defs(
            s,
        )[st.positionals.len() as int].required {
            Err(CliFailure::MissingRequired(pos_defs(s)[st.positionals.len() as int].name))
        } else {
            Ok(st)
        },
    }
}

/// What the argument list `args` (program name first) parses to: the
/// subcommand and what was read of its arguments, or why it gives none.
pub open spec fn parse_args(args: Seq<Seq<char>>) -> Result<(Subcommand, ParseState), CliFailure> {
    if args.len() < 2 {
        Err(CliFailure::MissingSubcommand)
    } else {
        let t = args[1];
        if t == "-h"@ || t == "--help"@ {
            Err(CliFailure::Help(None))
        } else if t == "-V"@ || t == "--version"@ {
            Err(CliFailure::Version)
        } else if t == "help"@ {
            if args.len() < 3 {
                Err(CliFailure::Help(None))
            } else {
                match subcommand_named(args[2]) {
                    Some(s) => Err(CliFailure::Help(Some(s))),
                    None => Err(CliFailure::UnknownSubcommand(args[2])),
                }
            }
        } else {
            match subcommand_named(t) {
                Some(s) => match take_all(
                    s,
                    initial_state(s),
                    args.subrange(2, args.len() as int),
                ) {
                    Ok(st) => match finish(s, st) {
                        Ok(done) => Ok((s, done)),
                        Err(e) => Err(e),
                    },
                    Err(e) => Err(e),
                },
                None => if t.len() > 0 && t[0] == '-' {
                    Err(CliFailure::UnknownArgument(t))
                } else {
                    Err(CliFailure::UnknownSubcommand(t))
                },
            }
        }
    }
}

/// The `k`-th positional argument, if it was given.
pub open spec fn positional(st: ParseState, k: int) -> Option<Seq<char>> {
    if 0 <= k < st.positionals.len() {
        Some(st.positionals[k])
    } else {
        None
    }
}

/// `c` is the command that subcommand `s` with the arguments read in `st`
/// stands for.
pub open spec fn command_agrees(c: Command, s: Subcommand, st: ParseState) -> bool {
    match c {
        Command::List { path, pretty, json, porcelain } => {
            &&& s == Subcommand::List
            &&& opt_text(path) == positional(st, 0)
            &&& pretty == st.flags[0]
            &&& json == st.flags[1]
            &&& porcelain == st.flags[2]
        },
        Command::Resolve { name, path } => {
            &&& s == Subcommand::Resolve
            &&& Some(name@) == positional(st, 0)
            &&& opt_text(path) == st.values[0]
        },
        Command::Open { path, command } => {
            &&& s == Subcommand::Open
            &&& Some(path@) == positional(st, 0)
            &&& opt_text(command) == st.values[0]
        },
        Command::Create { name, source, open } => {
            &&& s == Subcommand::Create
            &&& Some(name@) == positional(st, 0)
            &&& opt_text(source) == st.values[0]
            &&& open == st.flags[1]
        },
        Command::Pick { path, finder } => {
            &&& s == Subcommand::Pick
            &&& opt_text(path) == positional(st, 0)
            &&& opt_text(finder) == st.values[0]
        },
        Command::Delete { name } => {
            &&& s == Subcommand::Delete
            &&& Some(name@) == positional(st, 0)
        },
        Command::Complete { subcommand } => {
            &&& s == Subcommand::Complete
            &&& Some(subcommand@) == positional(st, 0)
        },
    }
}

/// An argument that turns on `create`'s `--open`: `--open` itself, or a
/// cluster of short flags that starts with `o` (`-o`, `-os<base>`).
pub open spec fn turns_on_open(t: Seq<char>) -> bool {
    ||| t == seq!['-', '-', 'o', 'p', 'e', 'n']
    ||| (t.len() >= 2 && t[0] == '-' && t[1] == 'o')
}

/// Some argument before the first `--` turns on `--open`.
pub open spec fn open_requested(toks: Seq<Seq<char>>) -> bool
    decreases toks.len(),
{
    if toks.len() == 0 {
        false
    } else if toks[0] == seq!['-', '-'] {
        false
    } else {
        turns_on_open(toks[0]) || open_requested(toks.drop_first())
    }
}

/// The shape of a parse state of `create`.
spec fn create_state_ok(st: ParseState) -> bool {
    &&& st.flags.len() == 2
    &&& st.values.len() == 2
    &&& st.pending matches Some(i) ==> 0 <= i < 2
}

proof fn lemma_create_set_value(st: ParseState, i: int, v: Seq<char>)
    requires
        create_state_ok(st),
        0 <= i < 2,
    ensures
        set_value(Subcommand::Create, st, i, v) matches Ok(n) ==> create_state_ok(n) && n.flags
            == st.flags && n.escaped == st.escaped,
{
}

proof fn lemma_create_shorts(st: ParseState, cs: Seq<char>)
    requires
        create_state_ok(st),
    ensures
        take_shorts(Subcommand::Create, st, cs) matches Ok(n) ==> {
            &&& create_state_ok(n)
            &&& n.escaped == st.escaped
            &&& n.flags[1] == (st.flags[1] || (cs.len() > 0 && cs[0] == 'o'))
        },
    decreases cs.len(),
{
    reveal_with_fuel(find_short, 3);
    let defs = opt_defs(Subcommand::Create);
    if cs.len() > 0 && cs[0] != 'h' {
        if cs[0] == 'o' {
            assert(find_short(defs, cs[0], 0) == Some(1int));
            let next = ParseState { flags: st.flags.update(1, true), ..st };
            lemma_create_shorts(next, cs.drop_first());
        } else if cs[0] == 's' {
            assert(find_short(defs, cs[0], 0) == Some(0int));
            let rest = cs.drop_first();
            if rest.len() > 0 && rest[0] == '=' {
                lemma_create_set_value(st, 0, rest.drop_first());
            } else if rest.len() > 0 {
                lemma_create_set_value(st, 0, rest);
            }
        } else {
            assert(find_short(defs, cs[0], 0) is None);
        }
    }
}

proof fn lemma_create_long(st: ParseState, body: Seq<char>, t: Seq<char>)
    requires
        create_state_ok(st),
        t == seq!['-', '-'] + body,
    ensures
        take_long(Subcommand::Create, st, body, t) matches Ok(n) ==> {
            &&& create_state_ok(n)
            &&& n.escaped == st.escaped
            &&& n.flags[1] == (st.flags[1] || t == seq!['-', '-', 'o', 'p', 'e', 'n'])
        },
{
    reveal_with_fuel(find_long, 3);
    reveal_with_fuel(first_eq, 6);
    reveal_strlit("open");
    reveal_strlit("source");
    reveal_strlit("help");
    let defs = opt_defs(Subcommand::Create);
    assert(defs[0].long != defs[1].long) by {
        assert(defs[0].long.len() != defs[1].long.len());
    }
    let (name, value) = match first_eq(body, 0) {
        Some(k) => (body.subrange(0, k), Some(body.subrange(k + 1, body.len() as int))),
        None => (body, None),
    };
    let open_t = seq!['-', '-', 'o', 'p', 'e', 'n'];
    assert(body =~= t.subrange(2, t.len() as int));
    if t == open_t {
        assert(body =~= seq!['o', 'p', 'e', 'n']);
        assert(first_eq(body, 0) is None);
        assert(name == defs[1].long);
        assert(find_long(defs, name, 0) == Some(1int));
    } else if name == defs[1].long {
        assert(find_long(defs, name, 0) == Some(1int));
        if value is None {
            assert(body == name);
            assert(t =~= open_t);
        }
    } else if name == defs[0].long {
        assert(find_long(defs, name, 0) == Some(0int));
        if let Some(v) = value {
            lemma_create_set_value(st, 0, v);
        }
    } else {
        assert(find_long(defs, name, 0) is None);
    }
}

proof fn lemma_create_token(st: ParseState, t: Seq<char>)
    requires
        create_state_ok(st),
    ensures
        take_token(Subcommand::Create, st, t) matches Ok(n) ==> {
            &&& create_state_ok(n)
            &&& n.escaped == (st.escaped || t == seq!['-', '-'])
            &&& n.flags[1] == (st.flags[1] || (!st.escaped && t != seq!['-', '-']
                && turns_on_open(t)))
        },
{
    match st.pending {
        Some(i) => {
            if !looks_like_option(t) {
                lemma_create_set_value(st, i, t);
            }
        },
        None => {
            if st.escaped {
            } else if t == seq!['-', '-'] {
            } else if t.len() > 2 && t[0] == '-' && t[1] == '-' {
                assert(t =~= seq!['-', '-'] + t.subrange(2, t.len() as int));
                lemma_create_long(st, t.subrange(2, t.len() as int), t);
            } else if looks_like_option(t) {
                lemma_create_shorts(st, t.drop_first());
                if t.len() == 2 && t[1] == '-' {
                    assert(t =~= seq!['-', '-']);
                }
            }
        },
    }
}

proof fn lemma_create_take_all(st: ParseState, toks: Seq<Seq<char>>)
    requires
        create_state_ok(st),
    ensures
        take_all(Subcommand::Create, st, toks) matches Ok(n) ==> n.flags[1] == (st.flags[1] || (
        !st.escaped && open_requested(toks))),
    decreases toks.len(),
{
    if toks.len() > 0 {
        lemma_create_token(st, toks[0]);
        if let Ok(next) = take_token(Subcommand::Create, st, toks[0]) {
            lemma_create_take_all(next, toks.drop_first());
        }
    }
}

/// `create`'s `--open` is on exactly when one of the arguments before a
/// `--` turns it on (`--open`, or short flags starting with `-o`); it
/// depends on nothing else, such as whether `--source` was given.
pub proof fn lemma_create_open_flag(args: Seq<Seq<char>>)
    ensures
        parse_args(args) matches Ok((s, st)) ==> (s == Subcommand::Create ==> st.flags[1]
            == open_requested(args.subrange(2, args.len() as int))),
{
    if args.len() >= 2 {
        let s0 = Subcommand::Create;
        let init = initial_state(s0);
        assert(create_state_ok(init));
        lemma_create_take_all(init, args.subrange(2, args.len() as int));
    }
}

/// The text of each argument.
pub open spec fn arg_texts(args: Seq<String>) -> Seq<Seq<char>> {
    args.map_values(|a: String| a@)
}

/// An option, as the parser holds it.
struct ExecOpt {
    short: Option<char>,
    long: Vec<char>,
    valued: bool,
    path: bool,
}

spec fn def_view(o: ExecOpt) -> OptDef {
    OptDef { short: o.short, long: o.long@, valued: o.valued, path: o.path }
}

spec fn defs_view(v: Seq<ExecOpt>) -> Seq<OptDef> {
    v.map_values(|o: ExecOpt| def_view(o))
}

fn make_opt(short: Option<char>, long: &str, valued: bool, path: bool) -> (r: ExecOpt)
    ensures
        def_view(r) == (OptDef { short, long: long@, valued, path }),
{
    ExecOpt { short, long: chars_of(long), valued, path }
}

fn opt_table(s: Subcommand) -> (r: Vec<ExecOpt>)
    ensures
        defs_view(r@) == opt_defs(s),
{
    let mut r: Vec<ExecOpt> = Vec::new();
    match s {
        Subcommand::List => {
            r.push(make_opt(Some('p'), "pretty", false, false));
            r.push(make_opt(None, "json", false, false));
            r.push(make_opt(None, "porcelain", false, false));
        },
        Subcommand::Resolve => {
            r.push(make_opt(Some('P'), "path", true, true));
        },
        Subcommand::Open => {
            r.push(make_opt(Some('c'), "command", true, false));
        },
        Subcommand::Create => {
            r.push(make_opt(Some('s'), "source", true, false));
            r.push(make_opt(Some('o'), "open", false, false));
        },
        Subcommand::Pick => {
            r.push(make_opt(Some('F'), "finder", true, false));
        },
        Subcommand::Delete => {},
        Subcommand::Complete => {},
    }
    assert(defs_view(r@) =~= opt_defs(s));
    r
}

/// The positional argument of a subcommand: its name and whether it is a
/// path.
fn pos_table(s: Subcommand) -> (r: (Vec<char>, bool, bool))
    ensures
        pos_defs(s).len() == 1,
        r.0@ == pos_defs(s)[0].name,
        r.1 == pos_defs(s)[0].required,
        r.2 == pos_defs(s)[0].path,
{
    match s {
        Subcommand::List => (chars_of("PATH"), false, true),
        Subcommand::Resolve => (chars_of("NAME"), true, false),
        Subcommand::Open => (chars_of("PATH"), true, true),
        Subcommand::Create => (chars_of("NAME"), true, false),
        Subcommand::Pick => (chars_of("PATH"), false, true),
        Subcommand::Delete => (chars_of("NAME"), true, false),
        Subcommand::Complete => (chars_of("SUBCOMMAND"), true, false),
    }
}

/// What has been read, as the parser holds it.
struct ExecState {
    escaped: bool,
    pending: Option<usize>,
    flags: Vec<bool>,
    values: Vec<Option<Vec<char>>>,
    positionals: Vec<Vec<char>>,
}

spec fn state_view(st: ExecState) -> ParseState {
    ParseState {
        escaped: st.escaped,
        pending: match st.pending {
            Some(i) => Some(i as int),
            None => None,
        },
        flags: st.flags@,
        values: st.values@.map_values(|o: Option<Vec<char>>| crate::path::opt_view(o)),
        positionals: crate::text::views(st.positionals@),
    }
}

spec fn state_wf(n: nat, st: ExecState) -> bool {
    &&& st.flags.len() == n
    &&& st.values.len() == n
    &&& st.pending matches Some(i) ==> i < n
}

fn text(v: &Vec<char>) -> (r: String)
    ensures
        r@ == v@,
{
    string_from_chars(v.as_slice())
}

fn find_long_exec(opts: &Vec<ExecOpt>, name: &Vec<char>) -> (r: Option<usize>)
    ensures
        match r {
            Some(i) => find_long(defs_view(opts@), name@, 0) == Some(i as int) && i < opts.len(),
            None => find_long(defs_view(opts@), name@, 0) is None,
        },
{
    let ghost defs = defs_view(opts@);
    let mut i: usize = 0;
    while i < opts.len()
        invariant
            defs == defs_view(opts@),
            0 <= i <= opts.len(),
            find_long(defs, name@, 0) == find_long(defs, name@, i as int),
        decreases opts.len() - i,
    {
        assert(defs[i as int] == def_view(opts@[i as int]));
        if chars_eq(&opts[i].long, name) {
            return Some(i);
        }
        i += 1;
    }
    None
}

fn find_short_exec(opts: &Vec<ExecOpt>, c: char) -> (r: Option<usize>)
    ensures
        match r {
            Some(i) => find_short(defs_view(opts@), c, 0) == Some(i as int) && i < opts.len(),
            None => find_short(defs_view(opts@), c, 0) is None,
        },
{
    let ghost defs = defs_view(opts@);
    let mut i: usize = 0;
    while i < opts.len()
        invariant
            defs == defs_view(opts@),
            0 <= i <= opts.len(),
            find_short(defs, c, 0) == find_short(defs, c, i as int),
        decreases opts.len() - i,
    {
        assert(defs[i as int] == def_view(opts@[i as int]));
        if opts[i].short == Some(c) {
            return Some(i);
        }
        i += 1;
    }
    None
}

fn given(opts: &Vec<ExecOpt>, st: &ExecState, i: usize) -> (r: bool)
    requires
        i < opts.len(),
        state_wf(opts.len() as nat, *st),
    ensures
        r == is_given_in(defs_view(opts@), state_view(*st), i as int),
{
    if opts[i].valued {
        st.values[i].is_some()
    } else {
        st.flags[i]
    }
}

/// Option `i` of `defs` has already been given.
spec fn is_given_in(defs: Seq<OptDef>, st: ParseState, i: int) -> bool {
    if defs[i].valued {
        st.values[i] is Some
    } else {
        st.flags[i]
    }
}

/// The step gave `expected`: the state after it when it succeeded, or the
/// same failure.
spec fn outcome(r: Result<(), CliError>, after: ExecState, expected: Result<ParseState, CliFailure>) -> bool {
    match r {
        Ok(_) => expected == Ok::<_, CliFailure>(state_view(after)),
        Err(e) => expected == Err::<ParseState, _>(e@),
    }
}

fn set_value_exec(
    s: Subcommand,
    opts: &Vec<ExecOpt>,
    st: &mut ExecState,
    i: usize,
    v: Vec<char>,
) -> (r: Result<(), CliError>)
    requires
        defs_view(opts@) == opt_defs(s),
        state_wf(opts.len() as nat, *old(st)),
        i < opts.len(),
    ensures
        state_wf(opts.len() as nat, *final(st)),
        outcome(r, *final(st), set_value(s, state_view(*old(st)), i as int, v@)),
{
    assert(opt_defs(s)[i as int] == def_view(opts@[i as int]));
    if opts[i].path && v.len() == 0 {
        return Err(CliError::EmptyValue(text(&opts[i].long)));
    }
    let ghost before = state_view(*st);
    let ghost vv = v@;
    st.pending = None;
    st.values.set(i, Some(v));
    assert(state_view(*st).values =~= before.values.update(i as int, Some(vv)));
    Ok(())
}

fn take_positional_exec(s: Subcommand, opts: &Vec<ExecOpt>, st: &mut ExecState, t: &Vec<char>) -> (r:
    Result<(), CliError>)
    requires
        defs_view(opts@) == opt_defs(s),
        state_wf(opts.len() as nat, *old(st)),
    ensures
        state_wf(opts.len() as nat, *final(st)),
        outcome(r, *final(st), take_positional(s, state_view(*old(st)), t@)),
{
    let (name, _required, is_path) = pos_table(s);
    if st.positionals.len() < 1 {
        if is_path && t.len() == 0 {
            return Err(CliError::EmptyValue(text(&name)));
        }
        let ghost before = state_view(*st);
        let c = copy_range(t, 0, t.len());
        assert(t@.subrange(0, t@.len() as int) =~= t@);
        st.positionals.push(c);
        assert(state_view(*st).positionals =~= before.positionals.push(t@));
        Ok(())
    } else {
        Err(CliError::UnknownArgument(text(t)))
    }
}

fn first_eq_exec(body: &Vec<char>) -> (r: Option<usize>)
    ensures
        match r {
            Some(k) => first_eq(body@, 0) == Some(k as int) && k < body.len(),
            None => first_eq(body@, 0) is None,
        },
{
    let mut k: usize = 0;
    while k < body.len()
        invariant
            0 <= k <= body.len(),
            first_eq(body@, 0) == first_eq(body@, k as int),
        decreases body.len() - k,
    {
        if body[k] == '=' {
            return Some(k);
        }
        k += 1;
    }
    None
}

fn take_long_exec(
    s: Subcommand,
    opts: &Vec<ExecOpt>,
    st: &mut ExecState,
    body: &Vec<char>,
    t: &Vec<char>,
) -> (r: Result<(), CliError>)
    requires
        defs_view(opts@) == opt_defs(s),
        state_wf(opts.len() as nat, *old(st)),
    ensures
        state_wf(opts.len() as nat, *final(st)),
        outcome(r, *final(st), take_long(s, state_view(*old(st)), body@, t@)),
{
    let (name, value) = match first_eq_exec(body) {
        Some(k) => (copy_range(body, 0, k), Some(copy_range(body, k + 1, body.len()))),
        None => {
            assert(body@.subrange(0, body@.len() as int) =~= body@);
            (copy_range(body, 0, body.len()), None)
        },
    };
    let help = chars_of("help");
    if chars_eq(&name, &help) {
        if value.is_none() {
            return Err(CliError::Help(Some(s)));
        } else {
            return Err(CliError::UnexpectedValue(text(&name)));
        }
    }
    match find_long_exec(opts, &name) {
        None => Err(CliError::UnknownArgument(text(t))),
        Some(i) => {
            assert(opt_defs(s)[i as int] == def_view(opts@[i as int]));
            if given(opts, st, i) {
                return Err(CliError::Duplicate(text(&opts[i].long)));
            }
            if !opts[i].valued {
                if value.is_some() {
                    return Err(CliError::UnexpectedValue(text(&opts[i].long)));
                }
                let ghost before = state_view(*st);
                st.flags.set(i, true);
                assert(state_view(*st) == ParseState {
                    flags: before.flags.update(i as int, true),
                    ..before
                }) by {
                    assert(state_view(*st).flags =~= before.flags.update(i as int, true));
                }
                Ok(())
            } else {
                match value {
                    Some(v) => set_value_exec(s, opts, st, i, v),
                    None => {
                        st.pending = Some(i);
                        Ok(())
                    },
                }
            }
        },
    }
}

fn take_shorts_exec(s: Subcommand, opts: &Vec<ExecOpt>, st: &mut ExecState, t: &Vec<char>) -> (r:
    Result<(), CliError>)
    requires
        defs_view(opts@) == opt_defs(s),
        state_wf(opts.len() as nat, *old(st)),
        t.len() >= 1,
    ensures
        state_wf(opts.len() as nat, *final(st)),
        outcome(r, *final(st), take_shorts(s, state_view(*old(st)), t@.drop_first())),
{
    let ghost goal = take_shorts(s, state_view(*st), t@.drop_first());
    let mut j: usize = 1;
    assert(t@.subrange(1, t@.len() as int) =~= t@.drop_first());
    while j < t.len()
        invariant
            defs_view(opts@) == opt_defs(s),
            state_wf(opts.len() as nat, *st),
            1 <= j <= t.len(),
            goal == take_shorts(s, state_view(*st), t@.subrange(j as int, t@.len() as int)),
            goal == take_shorts(s, state_view(*old(st)), t@.drop_first()),
        decreases t.len() - j,
    {
        let ghost cs = t@.subrange(j as int, t@.len() as int);
        assert(cs[0] == t@[j as int]);
        assert(cs.drop_first() =~= t@.subrange(j + 1, t@.len() as int));
        let c = t[j];
        if c == 'h' {
            return Err(CliError::Help(Some(s)));
        }
        match find_short_exec(opts, c) {
            None => {
                let mut u: Vec<char> = Vec::new();
                u.push('-');
                u.push(c);
                assert(u@ =~= seq!['-', c]);
                return Err(CliError::UnknownArgument(text(&u)));
            },
            Some(i) => {
                assert(opt_defs(s)[i as int] == def_view(opts@[i as int]));
                if given(opts, st, i) {
                    return Err(CliError::Duplicate(text(&opts[i].long)));
                }
                if !opts[i].valued {
                    let ghost before = state_view(*st);
                    st.flags.set(i, true);
                    assert(state_view(*st) == ParseState {
                        flags: before.flags.update(i as int, true),
                        ..before
                    }) by {
                        assert(state_view(*st).flags =~= before.flags.update(i as int, true));
                    }
                    j += 1;
                } else {
                    let rest_start = j + 1;
                    if rest_start == t.len() {
                        assert(cs.drop_first().len() == 0);
                        st.pending = Some(i);
                        return Ok(());
                    }
                    let ghost rest = cs.drop_first();
                    assert(rest[0] == t@[rest_start as int]);
                    if t[rest_start] == '=' {
                        let v = copy_range(t, rest_start + 1, t.len());
                        assert(v@ =~= rest.drop_first());
                        return set_value_exec(s, opts, st, i, v);
                    } else {
                        let v = copy_range(t, rest_start, t.len());
                        assert(v@ =~= rest);
                        return set_value_exec(s, opts, st, i, v);
                    }
                }
            },
        }
    }
    assert(t@.subrange(j as int, t@.len() as int).len() == 0);
    Ok(())
}

fn take_token_exec(s: Subcommand, opts: &Vec<ExecOpt>, st: &mut ExecState, t: &Vec<char>) -> (r:
    Result<(), CliError>)
    requires
        defs_view(opts@) == opt_defs(s),
        state_wf(opts.len() as nat, *old(st)),
    ensures
        state_wf(opts.len() as nat, *final(st)),
        outcome(r, *final(st), take_token(s, state_view(*old(st)), t@)),
{
    let option_like = t.len() >= 2 && t[0] == '-';
    match st.pending {
        Some(i) => {
            if option_like {
                assert(opt_defs(s)[i as int] == def_view(opts@[i as int]));
                return Err(CliError::MissingValue(text(&opts[i].long)));
            }
            let v = copy_range(t, 0, t.len());
            assert(t@.subrange(0, t@.len() as int) =~= t@);
            set_value_exec(s, opts, st, i, v)
        },
        None => {
            if st.escaped {
                return take_positional_exec(s, opts, st, t);
            }
            if t.len() == 2 && t[0] == '-' && t[1] == '-' {
                assert(t@ =~= seq!['-', '-']);
                st.escaped = true;
                return Ok(());
            }
            assert(t@ != seq!['-', '-']) by {
                if t@ == seq!['-', '-'] {
                    assert(t@[0] == '-' && t@[1] == '-');
                }
            }
            if t.len() > 2 && t[0] == '-' && t[1] == '-' {
                let body = copy_range(t, 2, t.len());
                return take_long_exec(s, opts, st, &body, t);
            }
            if option_like {
                return take_shorts_exec(s, opts, st, t);
            }
            take_positional_exec(s, opts, st, t)
        },
    }
}

fn subcommand_of(t: &Vec<char>) -> (r: Option<Subcommand>)
    ensures
        r == subcommand_named(t@),
{
    if chars_eq(t, &chars_of("list")) {
        Some(Subcommand::List)
    } else if chars_eq(t, &chars_of("resolve")) {
        Some(Subcommand::Resolve)
    } else if chars_eq(t, &chars_of("open")) {
        Some(Subcommand::Open)
    } else if chars_eq(t, &chars_of("create")) {
        Some(Subcommand::Create)
    } else if chars_eq(t, &chars_of("pick")) {
        Some(Subcommand::Pick)
    } else if chars_eq(t, &chars_of("delete")) {
        Some(Subcommand::Delete)
    } else if chars_eq(t, &chars_of("complete")) {
        Some(Subcommand::Complete)
    } else {
        None
    }
}

fn initial_exec(s: Subcommand, opts: &Vec<ExecOpt>) -> (r: ExecState)
    requires
        defs_view(opts@) == opt_defs(s),
    ensures
        state_wf(opts.len() as nat, r),
        state_view(r) == initial_state(s),
{
    let mut flags: Vec<bool> = Vec::new();
    let mut values: Vec<Option<Vec<char>>> = Vec::new();
    let mut i: usize = 0;
    while i < opts.len()
        invariant
            0 <= i <= opts.len(),
            flags.len() == i,
            values.len() == i,
            forall|k: int| 0 <= k < i ==> !flags@[k],
            forall|k: int| 0 <= k < i ==> values@[k] is None,
        decreases opts.len() - i,
    {
        flags.push(false);
        values.push(None);
        i += 1;
    }
    let r = ExecState { escaped: false, pending: None, flags, values, positionals: Vec::new() };
    assert(state_view(r).flags =~= initial_state(s).flags);
    assert(state_view(r).values =~= initial_state(s).values);
    assert(state_view(r).positionals =~= initial_state(s).positionals);
    r
}

fn positional_text(st: &ExecState) -> (r: Option<String>)
    ensures
        opt_text(r) == positional(state_view(*st), 0),
{
    if st.positionals.len() > 0 {
        Some(text(&st.positionals[0]))
    } else {
        None
    }
}

fn value_text(st: &ExecState, i: usize) -> (r: Option<String>)
    requires
        i < st.values.len(),
    ensures
        opt_text(r) == state_view(*st).values[i as int],
{
    match &st.values[i] {
        Some(v) => Some(text(v)),
        None => None,
    }
}

fn command_from(s: Subcommand, opts: &Vec<ExecOpt>, st: &ExecState) -> (r: Command)
    requires
        defs_view(opts@) == opt_defs(s),
        state_wf(opts.len() as nat, *st),
        st.positionals.len() >= 1 || !pos_defs(s)[0].required,
    ensures
        command_agrees(r, s, state_view(*st)),
{
    let ghost sv = state_view(*st);
    assert(opts.len() == opt_defs(s).len());
    match s {
        Subcommand::List => Command::List {
            path: positional_text(st),
            pretty: st.flags[0],
            json: st.flags[1],
            porcelain: st.flags[2],
        },
        Subcommand::Resolve => Command::Resolve {
            name: text(&st.positionals[0]),
            path: value_text(st, 0),
        },
        Subcommand::Open => Command::Open {
            path: text(&st.positionals[0]),
            command: value_text(st, 0),
        },
        Subcommand::Create => Command::Create {
            name: text(&st.positionals[0]),
            source: value_text(st, 0),
            open: st.flags[1],
        },
        Subcommand::Pick => Command::Pick { path: positional_text(st), finder: value_text(st, 0) },
        Subcommand::Delete => Command::Delete { name: text(&st.positionals[0]) },
        Subcommand::Complete => Command::Complete { subcommand: text(&st.positionals[0]) },
    }
}

impl Cli {
    /// Parse an argument list (the program name first) into a command, or
    /// say why it gives none.
    pub fn try_parse_from(args: &Vec<String>) -> (r: Result<Cli, CliError>)
        ensures
            match (r, parse_args(arg_texts(args@))) {
                (Ok(cli), Ok((s, st))) => command_agrees(cli.command, s, st),
                (Err(e), Err(f)) => e@ == f,
                _ => false,
            },
            r matches Ok(cli) ==> (cli.command matches Command::Create { open, .. } ==> open
                == open_requested(arg_texts(args@).subrange(2, args.len() as int))),
    {
        let r = Self::parse_command_line(args);
        proof {
            lemma_create_open_flag(arg_texts(args@));
        }
        r
    }

    /// The parse of `try_parse_from`.
    fn parse_command_line(args: &Vec<String>) -> (r: Result<Cli, CliError>)
        ensures
            match (r, parse_args(arg_texts(args@))) {
                (Ok(cli), Ok((s, st))) => command_agrees(cli.command, s, st),
                (Err(e), Err(f)) => e@ == f,
                _ => false,
            },
    {
        let ghost a = arg_texts(args@);
        if args.len() < 2 {
            return Err(CliError::MissingSubcommand);
        }
        assert(a[1] == args@[1]@);
        let t = chars_of(args[1].as_str());
        if chars_eq(&t, &chars_of("-h")) || chars_eq(&t, &chars_of("--help")) {
            return Err(CliError::Help(None));
        }
        if chars_eq(&t, &chars_of("-V")) || chars_eq(&t, &chars_of("--version")) {
            return Err(CliError::Version);
        }
        if chars_eq(&t, &chars_of("help")) {
            if args.len() < 3 {
                return Err(CliError::Help(None));
            }
            assert(a[2] == args@[2]@);
            let t2 = chars_of(args[2].as_str());
            return match subcommand_of(&t2) {
                Some(s) => Err(CliError::Help(Some(s))),
                None => Err(CliError::UnknownSubcommand(args[2].clone())),
            };
        }
        let s = match subcommand_of(&t) {
            Some(s) => s,
            None => {
                if t.len() > 0 && t[0] == '-' {
                    return Err(CliError::UnknownArgument(args[1].clone()));
                } else {
                    return Err(CliError::UnknownSubcommand(args[1].clone()));
                }
            },
        };
        let opts = opt_table(s);
        let mut st = initial_exec(s, &opts);
        let ghost toks = a.subrange(2, a.len() as int);
        let ghost goal = take_all(s, initial_state(s), toks);
        let mut i: usize = 2;
        assert(a.subrange(2, a.len() as int) =~= toks);
        while i < args.len()
            invariant
                defs_view(opts@) == opt_defs(s),
                state_wf(opts.len() as nat, st),
                a == arg_texts(args@),
                2 <= i <= args.len(),
                goal == take_all(s, state_view(st), a.subrange(i as int, a.len() as int)),
                goal == take_all(s, initial_state(s), a.subrange(2, a.len() as int)),
                subcommand_named(a[1]) == Some(s),
                a[1] != "help"@ && a[1] != "-h"@ && a[1] != "--help"@ && a[1] != "-V"@ && a[1]
                    != "--version"@,
            decreases args.len() - i,
        {
            let ghost rest = a.subrange(i as int, a.len() as int);
            assert(rest[0] == args@[i as int]@);
            assert(rest.drop_first() =~= a.subrange(i + 1, a.len() as int));
            let tok = chars_of(args[i].as_str());
            let ghost before = state_view(st);
            match take_token_exec(s, &opts, &mut st, &tok) {
                Ok(()) => {},
                Err(e) => {
                    assert(take_all(s, before, rest) == Err::<ParseState, _>(e@));
                    return Err(e);
                },
            }
            i += 1;
        }
        assert(a.subrange(i as int, a.len() as int).len() == 0);
        match st.pending {
            Some(p) => {
                assert(opt_defs(s)[p as int] == def_view(opts@[p as int]));
                return Err(CliError::MissingValue(text(&opts[p].long)));
            },
            None => {},
        }
        let (name, required, _is_path) = pos_table(s);
        if st.positionals.len() < 1 && required {
            return Err(CliError::MissingRequired(text(&name)));
        }
        Ok(Cli { command: command_from(s, &opts, &st) })
    }
}

/// The overall help.
pub const TOP_HELP: &'static str = "Yet Another Worktree Navigator

Usage: yawn <COMMAND>

Commands:
  list     Recursively discover git projects under a directory
  resolve  Map a pretty name back to an absolute path
  open     Open a terminal in the given directory
  create   Create a git worktree for the current project
  pick     Interactively pick a project and open a terminal in it
  delete   Remove a worktree for the current project
  help     Print this message or the help of the given subcommand(s)

Options:
  -h, --help     Print help
  -V, --version  Print version
";

/// The help of `list`.
pub const LIST_HELP: &'static str = "Recursively discover git projects under a directory

Usage: yawn list [OPTIONS] [PATH]

Arguments:
  [PATH]  Directory to search (defaults to current directory)

Options:
  -p, --pretty     Show human-readable names with annotations
      --json       Output as JSON array
      --porcelain  Force stable flat output (for scripting with --pretty)
  -h, --help       Print help
";

/// The help of `resolve`.
pub const RESOLVE_HELP: &'static str = "Map a pretty name back to an absolute path

Usage: yawn resolve [OPTIONS] <NAME>

Arguments:
  <NAME>  The pretty name to resolve

Options:
  -P, --path <PATH>  Directory to search (must match the path used with list)
  -h, --help         Print help
";

/// The help of `open`.
pub const OPEN_HELP: &'static str = "Open a terminal in the given directory

Usage: yawn open [OPTIONS] <PATH>

Arguments:
  <PATH>  Absolute path to the directory

Options:
  -c, --command <COMMAND>  Command to open the terminal (overrides config opener)
  -h, --help               Print help
";

/// The help of `create`.
pub const CREATE_HELP: &'static str = "Create a git worktree for the current project

Usage: yawn create [OPTIONS] <NAME>

Arguments:
  <NAME>  Branch/worktree name

Options:
  -s, --source <SOURCE>  Base branch/ref to create the new branch from
  -o, --open             Open a terminal in the worktree after creation
  -h, --help             Print help
";

/// The help of `pick`.
pub const PICK_HELP: &'static str = "Interactively pick a project and open a terminal in it

Usage: yawn pick [OPTIONS] [PATH]

Arguments:
  [PATH]  Directory to search (defaults to current directory)

Options:
  -F, --finder <FINDER>  Finder command to use (overrides config finder, e.g. fzf, \"rofi -dmenu -p project -i\")
  -h, --help             Print help
";

/// The help of `delete`.
pub const DELETE_HELP: &'static str = "Remove a worktree for the current project

Usage: yawn delete <NAME>

Arguments:
  <NAME>  Worktree name to remove

Options:
  -h, --help  Print help
";

/// The help of `complete`.
pub const COMPLETE_HELP: &'static str = "Output completion candidates (hidden)

Usage: yawn complete <SUBCOMMAND>

Arguments:
  <SUBCOMMAND>  Subcommand to complete for

Options:
  -h, --help  Print help
";

/// The help of a subcommand.
pub open spec fn subcommand_help(s: Subcommand) -> Seq<char> {
    match s {
        Subcommand::List => LIST_HELP@,
        Subcommand::Resolve => RESOLVE_HELP@,
        Subcommand::Open => OPEN_HELP@,
        Subcommand::Create => CREATE_HELP@,
        Subcommand::Pick => PICK_HELP@,
        Subcommand::Delete => DELETE_HELP@,
        Subcommand::Complete => COMPLETE_HELP@,
    }
}

/// The text shown for a failure: the help asked for, or an error line.
pub open spec fn failure_message(f: CliFailure) -> Seq<char> {
    match f {
        CliFailure::Help(None) => TOP_HELP@,
        CliFailure::Help(Some(s)) => subcommand_help(s),
        CliFailure::Version => "yawn"@,
        CliFailure::MissingSubcommand => TOP_HELP@,
        CliFailure::UnknownSubcommand(t) => "error: unrecognized subcommand '"@ + t + "'"@,
        CliFailure::UnknownArgument(t) => "error: unexpected argument '"@ + t + "' found"@,
        CliFailure::MissingValue(l) => "error: a value is required for '--"@ + l
            + "' but none was supplied"@,
        CliFailure::UnexpectedValue(l) => "error: unexpected value for '--"@ + l + "'"@,
        CliFailure::Duplicate(l) => "error: the argument '--"@ + l
            + "' cannot be used multiple times"@,
        CliFailure::EmptyValue(n) => "error: a value is required for '"@ + n
            + "' but none was supplied"@,
        CliFailure::MissingRequired(n) => "error: the following required arguments were not provided: <"@
            + n + ">"@,
    }
}

fn concat3(a: &str, b: &String, c: &str) -> (r: String)
    ensures
        r@ == a@ + b@ + c@,
{
    let mut v = chars_of(a);
    crate::text::push_all(&mut v, &chars_of(b.as_str()));
    crate::text::push_all(&mut v, &chars_of(c));
    string_from_chars(v.as_slice())
}

impl CliError {
    /// The text to show for this failure: the help asked for, the program
    /// name for a version request, or an error line.
    pub fn message(&self) -> (r: String)
        ensures
            r@ == failure_message(self@),
    {
        match self {
            CliError::Help(None) => TOP_HELP.to_string(),
            CliError::Help(Some(s)) => match s {
                Subcommand::List => LIST_HELP.to_string(),
                Subcommand::Resolve => RESOLVE_HELP.to_string(),
                Subcommand::Open => OPEN_HELP.to_string(),
                Subcommand::Create => CREATE_HELP.to_string(),
                Subcommand::Pick => PICK_HELP.to_string(),
                Subcommand::Delete => DELETE_HELP.to_string(),
                Subcommand::Complete => COMPLETE_HELP.to_string(),
            },
            CliError::Version => "yawn".to_string(),
            CliError::MissingSubcommand => TOP_HELP.to_string(),
            CliError::UnknownSubcommand(t) => concat3("error: unrecognized subcommand '", t, "'"),
            CliError::UnknownArgument(t) => concat3("error: unexpected argument '", t, "' found"),
            CliError::MissingValue(l) => concat3(
                "error: a value is required for '--",
                l,
                "' but none was supplied",
            ),
            CliError::UnexpectedValue(l) => concat3("error: unexpected value for '--", l, "'"),
            CliError::Duplicate(l) => concat3(
                "error: the argument '--",
                l,
                "' cannot be used multiple times",
            ),
            CliError::EmptyValue(n) => concat3(
                "error: a value is required for '",
                n,
                "' but none was supplied",
            ),
            CliError::MissingRequired(n) => concat3(
                "error: the following required arguments were not provided: <",
                n,
                ">",
            ),
        }
    }

    /// Help and version requests end the program successfully; the other
    /// failures are usage errors.
    pub fn is_request(&self) -> (r: bool)
        ensures
            r <==> (self@ is Help || self@ is Version),
    {
        match self {
            CliError::Help(_) => true,
            CliError::Version => true,
            _ => false,
        }
    }
}

} // verus!
