# yawn

A project switcher and git worktree manager. Its logic is a library whose
functions carry proved contracts; a thin program around it does the file,
process and git work.

- `src/` — the verified library:
  - `cli.rs`: the command-line grammar (`Cli::try_parse_from`);
  - `config.rs`: configuration defaults, `~` expansion, merging a config file;
  - `pretty.rs`: display names of discovered projects, their disambiguation
    the way back from a name to a path (`resolve`) and the JSON listing;
  - `session.rs`: shell quoting, opener templates and how a session is opened;
  - `worktree.rs`: `.devwork` include files, glob expansion, worktree paths,
    branch and default-branch choice;
  - `flow.rs`: the order of the steps that creating and deleting a worktree
    take, as step functions the program drives;
  - `path.rs`, `text.rs`: models of paths and strings the contracts speak of;
  - `suffix_laws.rs`: proofs that disambiguation tells projects apart.
- `tests/` — tests of the library on concrete values.
- `app/` — the `yawn` program: argument handling, discovery, git, files,
  TOML configuration and starting terminals.
