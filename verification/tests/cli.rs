use yawn::cli::{Cli, CliError, Command, Subcommand};

fn args(list: &[&str]) -> Vec<String> {
    list.iter().map(|s| s.to_string()).collect()
}

fn parse(list: &[&str]) -> Cli {
    Cli::try_parse_from(&args(list)).unwrap()
}

#[test]
fn test_list_no_args() {
    let cli = parse(&["yawn", "list"]);
    match cli.command {
        Command::List {
            path,
            pretty,
            json,
            porcelain,
        } => {
            assert!(path.is_none());
            assert!(!pretty);
            assert!(!json);
            assert!(!porcelain);
        }
        _ => panic!("expected List"),
    }
}

#[test]
fn test_list_with_path() {
    let cli = parse(&["yawn", "list", "/home/user"]);
    match cli.command {
        Command::List {
            path,
            pretty,
            json,
            porcelain,
        } => {
            assert_eq!(path.unwrap(), "/home/user");
            assert!(!pretty);
            assert!(!json);
            assert!(!porcelain);
        }
        _ => panic!("expected List"),
    }
}

#[test]
fn test_list_pretty() {
    let cli = parse(&["yawn", "list", "--pretty"]);
    match cli.command {
        Command::List { pretty, .. } => assert!(pretty),
        _ => panic!("expected List"),
    }
}

#[test]
fn test_list_path_and_pretty() {
    let cli = parse(&["yawn", "list", "/tmp", "--pretty"]);
    match cli.command {
        Command::List { path, pretty, .. } => {
            assert_eq!(path.unwrap(), "/tmp");
            assert!(pretty);
        }
        _ => panic!("expected List"),
    }
}

#[test]
fn test_list_json() {
    let cli = parse(&["yawn", "list", "--json"]);
    match cli.command {
        Command::List { json, pretty, .. } => {
            assert!(json);
            assert!(!pretty);
        }
        _ => panic!("expected List"),
    }
}

#[test]
fn test_list_json_with_path() {
    let cli = parse(&["yawn", "list", "/tmp", "--json"]);
    match cli.command {
        Command::List { path, json, .. } => {
            assert_eq!(path.unwrap(), "/tmp");
            assert!(json);
        }
        _ => panic!("expected List"),
    }
}

#[test]
fn test_list_porcelain() {
    let cli = parse(&["yawn", "list", "--pretty", "--porcelain"]);
    match cli.command {
        Command::List {
            pretty, porcelain, ..
        } => {
            assert!(pretty);
            assert!(porcelain);
        }
        _ => panic!("expected List"),
    }
}

#[test]
fn test_resolve() {
    let cli = parse(&["yawn", "resolve", "my-project"]);
    match cli.command {
        Command::Resolve { name, path } => {
            assert_eq!(name, "my-project");
            assert!(path.is_none());
        }
        _ => panic!("expected Resolve"),
    }
}

#[test]
fn test_resolve_with_path() {
    let cli = parse(&["yawn", "resolve", "my-project", "--path", "/home/user"]);
    match cli.command {
        Command::Resolve { name, path } => {
            assert_eq!(name, "my-project");
            assert_eq!(path.unwrap(), "/home/user");
        }
        _ => panic!("expected Resolve"),
    }
}

#[test]
fn test_resolve_with_short_path() {
    let cli = parse(&["yawn", "resolve", "my-project", "-P", "/tmp"]);
    match cli.command {
        Command::Resolve { path, .. } => {
            assert_eq!(path.unwrap(), "/tmp");
        }
        _ => panic!("expected Resolve"),
    }
}

#[test]
fn test_open() {
    let cli = parse(&["yawn", "open", "/home/user/project"]);
    match cli.command {
        Command::Open { path, command } => {
            assert_eq!(path, "/home/user/project");
            assert!(command.is_none());
        }
        _ => panic!("expected Open"),
    }
}

#[test]
fn test_open_with_command() {
    let cli = parse(&[
        "yawn",
        "open",
        "/home/user/project",
        "-c",
        "kitty --directory {dir}",
    ]);
    match cli.command {
        Command::Open { path, command } => {
            assert_eq!(path, "/home/user/project");
            assert_eq!(command.unwrap(), "kitty --directory {dir}");
        }
        _ => panic!("expected Open"),
    }
}

#[test]
fn test_open_with_long_command() {
    let cli = parse(&[
        "yawn",
        "open",
        "/tmp",
        "--command",
        "alacritty --working-directory {dir}",
    ]);
    match cli.command {
        Command::Open { path, command } => {
            assert_eq!(path, "/tmp");
            assert_eq!(command.unwrap(), "alacritty --working-directory {dir}");
        }
        _ => panic!("expected Open"),
    }
}

#[test]
fn test_create_minimal() {
    let cli = parse(&["yawn", "create", "feature-x"]);
    match cli.command {
        Command::Create { name, source, open } => {
            assert_eq!(name, "feature-x");
            assert!(source.is_none());
            assert!(!open);
        }
        _ => panic!("expected Create"),
    }
}

#[test]
fn cli_test_create_with_source() {
    let cli = parse(&["yawn", "create", "feature-x", "--source", "develop"]);
    match cli.command {
        Command::Create { name, source, .. } => {
            assert_eq!(name, "feature-x");
            assert_eq!(source.unwrap(), "develop");
        }
        _ => panic!("expected Create"),
    }
}

#[test]
fn test_create_with_open() {
    let cli = parse(&["yawn", "create", "feature-x", "--open"]);
    match cli.command {
        Command::Create { open, .. } => assert!(open),
        _ => panic!("expected Create"),
    }
}

#[test]
fn test_create_all_flags() {
    let cli = parse(&["yawn", "create", "feature-x", "--source", "main", "--open"]);
    match cli.command {
        Command::Create { name, source, open } => {
            assert_eq!(name, "feature-x");
            assert_eq!(source.unwrap(), "main");
            assert!(open);
        }
        _ => panic!("expected Create"),
    }
}

#[test]
fn test_pick_with_finder() {
    let cli = parse(&["yawn", "pick", "-F", "fzf"]);
    match cli.command {
        Command::Pick { path, finder } => {
            assert!(path.is_none());
            assert_eq!(finder.unwrap(), "fzf");
        }
        _ => panic!("expected Pick"),
    }
}

#[test]
fn test_pick_no_finder() {
    let cli = parse(&["yawn", "pick"]);
    match cli.command {
        Command::Pick { path, finder } => {
            assert!(path.is_none());
            assert!(finder.is_none());
        }
        _ => panic!("expected Pick"),
    }
}

#[test]
fn test_pick_with_path() {
    let cli = parse(&["yawn", "pick", "/home/user", "-F", "fzf"]);
    match cli.command {
        Command::Pick { path, finder } => {
            assert_eq!(path.unwrap(), "/home/user");
            assert_eq!(finder.unwrap(), "fzf");
        }
        _ => panic!("expected Pick"),
    }
}

#[test]
fn test_pick_complex_finder() {
    let cli = parse(&["yawn", "pick", "-F", "rofi -dmenu -p project -i"]);
    match cli.command {
        Command::Pick { finder, .. } => {
            assert_eq!(finder.unwrap(), "rofi -dmenu -p project -i");
        }
        _ => panic!("expected Pick"),
    }
}

#[test]
fn test_pick_long_finder_flag() {
    let cli = parse(&["yawn", "pick", "--finder", "fzf"]);
    match cli.command {
        Command::Pick { finder, .. } => assert_eq!(finder.unwrap(), "fzf"),
        _ => panic!("expected Pick"),
    }
}

#[test]
fn test_delete() {
    let cli = parse(&["yawn", "delete", "feature-x"]);
    match cli.command {
        Command::Delete { name } => assert_eq!(name, "feature-x"),
        _ => panic!("expected Delete"),
    }
}

#[test]
fn test_complete() {
    let cli = parse(&["yawn", "complete", "delete"]);
    match cli.command {
        Command::Complete { subcommand } => assert_eq!(subcommand, "delete"),
        _ => panic!("expected Complete"),
    }
}

#[test]
fn test_complete_hidden_from_help() {
    // "complete" should not appear in help text
    let help = Cli::try_parse_from(&args(&["yawn", "--help"]))
        .unwrap_err()
        .message();
    assert!(
        !help.contains("complete"),
        "complete should be hidden from help"
    );
}

#[test]
fn equals_and_attached_values() {
    let cli = parse(&["yawn", "resolve", "x", "--path=/srv"]);
    match cli.command {
        Command::Resolve { path, .. } => assert_eq!(path.unwrap(), "/srv"),
        _ => panic!("expected Resolve"),
    }
    let cli = parse(&["yawn", "resolve", "x", "-P/srv"]);
    match cli.command {
        Command::Resolve { path, .. } => assert_eq!(path.unwrap(), "/srv"),
        _ => panic!("expected Resolve"),
    }
    let cli = parse(&["yawn", "create", "x", "-os", "dev"]);
    match cli.command {
        Command::Create { source, open, .. } => {
            assert_eq!(source.unwrap(), "dev");
            assert!(open);
        }
        _ => panic!("expected Create"),
    }
}

#[test]
fn double_dash_makes_positional() {
    let cli = parse(&["yawn", "delete", "--", "--weird"]);
    match cli.command {
        Command::Delete { name } => assert_eq!(name, "--weird"),
        _ => panic!("expected Delete"),
    }
}

#[test]
fn parse_failures() {
    let fail = |list: &[&str]| Cli::try_parse_from(&args(list)).unwrap_err();
    assert_eq!(fail(&["yawn"]), CliError::MissingSubcommand);
    assert_eq!(fail(&["yawn", "-V"]), CliError::Version);
    assert_eq!(fail(&["yawn", "help"]), CliError::Help(None));
    assert_eq!(fail(&["yawn", "help", "list"]), CliError::Help(Some(Subcommand::List)));
    assert_eq!(fail(&["yawn", "list", "-h"]), CliError::Help(Some(Subcommand::List)));
    assert_eq!(fail(&["yawn", "frobnicate"]), CliError::UnknownSubcommand("frobnicate".to_string()));
    assert_eq!(fail(&["yawn", "--frob"]), CliError::UnknownArgument("--frob".to_string()));
    assert_eq!(fail(&["yawn", "list", "--frob"]), CliError::UnknownArgument("--frob".to_string()));
    assert_eq!(fail(&["yawn", "list", "-x"]), CliError::UnknownArgument("-x".to_string()));
    assert_eq!(fail(&["yawn", "list", "a", "b"]), CliError::UnknownArgument("b".to_string()));
    assert_eq!(fail(&["yawn", "resolve"]), CliError::MissingRequired("NAME".to_string()));
    assert_eq!(fail(&["yawn", "resolve", "x", "-P"]), CliError::MissingValue("path".to_string()));
    assert_eq!(fail(&["yawn", "pick", "-F", "--x"]), CliError::MissingValue("finder".to_string()));
    assert_eq!(fail(&["yawn", "list", "-p", "-p"]), CliError::Duplicate("pretty".to_string()));
    assert_eq!(fail(&["yawn", "list", "--json=1"]), CliError::UnexpectedValue("json".to_string()));
    assert_eq!(fail(&["yawn", "open", ""]), CliError::EmptyValue("PATH".to_string()));
    assert_eq!(fail(&["yawn", "resolve", "x", "--path="]), CliError::EmptyValue("path".to_string()));
}

#[test]
fn failure_messages() {
    assert_eq!(
        CliError::UnknownArgument("--frob".to_string()).message(),
        "error: unexpected argument '--frob' found"
    );
    assert!(CliError::Help(Some(Subcommand::Create)).message().contains("--source <SOURCE>"));
    assert!(CliError::Help(None).is_request());
    assert!(!CliError::MissingSubcommand.is_request());
}
