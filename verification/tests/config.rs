use yawn::config::{
    config_from_file, expand_tilde, expand_tilde_with_home, resolve_config, Config, ConfigFile,
    DiscoveryConfig, SessionConfig, WorktreeConfig,
};

fn strings(list: &[&str]) -> Vec<String> {
    list.iter().map(|s| s.to_string()).collect()
}

#[test]
fn test_defaults() {
    let config = Config::default();
    assert_eq!(config.max_depth, 5);
    assert_eq!(config.ignore, vec![".*", "node_modules"]);
    assert!(config.opener.is_none());
    assert!(config.worktree_root.ends_with("worktrees"));
}

#[test]
fn test_parse_empty_toml() {
    let config = resolve_config(&ConfigFile::default());
    assert_eq!(config.max_depth, 5);
    assert_eq!(config.ignore, vec![".*", "node_modules"]);
    assert!(config.opener.is_none());
}

#[test]
fn empty_file_gives_defaults() {
    let config = config_from_file(&ConfigFile::default(), Some("/home/u"));
    assert_eq!(config.max_depth, 5);
    assert_eq!(config.ignore, vec![".*", "node_modules"]);
    assert!(config.opener.is_none());
    assert!(config.finder.is_none());
    assert_eq!(config.worktree_root, "/home/u/worktrees");
}

#[test]
fn test_parse_partial_discovery() {
    let file = ConfigFile {
        discovery: Some(DiscoveryConfig { max_depth: Some(3), ignore: None }),
        session: None,
        worktree: None,
    };
    let config = resolve_config(&file);
    assert_eq!(config.max_depth, 3);
    assert_eq!(config.ignore, vec![".*", "node_modules"]);
}

fn session_file(opener: Option<&str>, finder: Option<&str>) -> ConfigFile {
    ConfigFile {
        discovery: None,
        session: Some(SessionConfig {
            opener: opener.map(|o| o.to_string()),
            finder: finder.map(|f| f.to_string()),
        }),
        worktree: None,
    }
}

#[test]
fn test_parse_custom_ignore() {
    let file = ConfigFile {
        discovery: Some(DiscoveryConfig {
            max_depth: None,
            ignore: Some(strings(&[".*", "node_modules", "target", "vendor"])),
        }),
        session: None,
        worktree: None,
    };
    let config = resolve_config(&file);
    assert_eq!(config.ignore, vec![".*", "node_modules", "target", "vendor"]);
    assert_eq!(config.max_depth, 5);
}

#[test]
fn test_parse_session() {
    let config =
        resolve_config(&session_file(Some("kitty --directory {dir} --title 'dev: {name}'"), None));
    assert_eq!(config.opener.unwrap(), "kitty --directory {dir} --title 'dev: {name}'");
    assert!(config.finder.is_none());
}

#[test]
fn test_parse_session_finder() {
    let config = resolve_config(&session_file(None, Some("fzf")));
    assert_eq!(config.finder.unwrap(), "fzf");
    assert!(config.opener.is_none());
}

#[test]
fn test_parse_session_both() {
    let config = resolve_config(&session_file(
        Some("kitty --directory {dir}"),
        Some("rofi -dmenu -p project -i"),
    ));
    assert_eq!(config.opener.unwrap(), "kitty --directory {dir}");
    assert_eq!(config.finder.unwrap(), "rofi -dmenu -p project -i");
}

#[test]
fn test_parse_worktree_root_absolute() {
    let file = ConfigFile {
        discovery: None,
        session: None,
        worktree: Some(WorktreeConfig { root: Some("/tmp/worktrees".to_string()) }),
    };
    assert_eq!(resolve_config(&file).worktree_root, "/tmp/worktrees");
}

#[test]
fn test_parse_full_config() {
    let file = ConfigFile {
        discovery: Some(DiscoveryConfig { max_depth: Some(10), ignore: Some(strings(&[".*"])) }),
        session: Some(SessionConfig {
            opener: Some("alacritty --working-directory {dir}".to_string()),
            finder: None,
        }),
        worktree: Some(WorktreeConfig { root: Some("/opt/worktrees".to_string()) }),
    };
    let config = resolve_config(&file);
    assert_eq!(config.max_depth, 10);
    assert_eq!(config.ignore, vec![".*"]);
    assert_eq!(config.opener.unwrap(), "alacritty --working-directory {dir}");
    assert_eq!(config.worktree_root, "/opt/worktrees");
}

#[test]
fn full_file() {
    let file = ConfigFile {
        discovery: Some(DiscoveryConfig { max_depth: Some(10), ignore: Some(strings(&[".*"])) }),
        session: Some(SessionConfig {
            opener: Some("alacritty --working-directory {dir}".to_string()),
            finder: Some("fzf".to_string()),
        }),
        worktree: Some(WorktreeConfig { root: Some("/opt/worktrees".to_string()) }),
    };
    let config = config_from_file(&file, None);
    assert_eq!(config.max_depth, 10);
    assert_eq!(config.ignore, vec![".*"]);
    assert_eq!(config.opener.unwrap(), "alacritty --working-directory {dir}");
    assert_eq!(config.finder.unwrap(), "fzf");
    assert_eq!(config.worktree_root, "/opt/worktrees");
}

#[test]
fn test_parse_worktree_root_tilde() {
    let file = ConfigFile {
        discovery: None,
        session: None,
        worktree: Some(WorktreeConfig { root: Some("~/my-worktrees".to_string()) }),
    };
    let home = dirs::home_dir().unwrap();
    assert_eq!(resolve_config(&file).worktree_root, home.join("my-worktrees").to_string_lossy());
}

#[test]
fn worktree_root_tilde_uses_home() {
    let file = ConfigFile {
        discovery: None,
        session: None,
        worktree: Some(WorktreeConfig { root: Some("~/my-worktrees".to_string()) }),
    };
    assert_eq!(config_from_file(&file, Some("/home/u")).worktree_root, "/home/u/my-worktrees");
    assert_eq!(config_from_file(&file, None).worktree_root, "/my-worktrees");
    let home = dirs::home_dir().unwrap();
    assert_eq!(
        resolve_config(&file).worktree_root,
        home.join("my-worktrees").to_string_lossy()
    );
}

#[test]
fn test_expand_tilde_with_path() {
    let home = dirs::home_dir().unwrap();
    assert_eq!(expand_tilde("~/foo/bar"), home.join("foo/bar").to_string_lossy());
}

#[test]
fn test_expand_tilde_bare() {
    let home = dirs::home_dir().unwrap();
    assert_eq!(expand_tilde("~"), home.to_string_lossy());
}

#[test]
fn test_expand_tilde_absolute_passthrough() {
    assert_eq!(expand_tilde("/tmp/foo"), "/tmp/foo");
}

#[test]
fn test_expand_tilde_relative_passthrough() {
    assert_eq!(expand_tilde("foo/bar"), "foo/bar");
}

#[test]
fn tilde_only_at_the_start() {
    assert_eq!(expand_tilde_with_home("~user/x", Some("/h")), "~user/x");
    assert_eq!(expand_tilde_with_home("a/~/b", Some("/h")), "a/~/b");
    assert_eq!(expand_tilde_with_home("~/", Some("/h/")), "/h/");
    assert_eq!(expand_tilde_with_home("~//abs", Some("/h")), "/abs");
}
