use yawn::worktree::{
    default_branch, expand_pattern, parse_devwork, plan_branch, worktree_path,
    worktree_short_name, BranchPlan,
};

#[test]
fn test_parse_devwork_basic() {
    let content = ".env\n.env.local\nconfig/dev.toml\n";
    let files = parse_devwork(content);
    assert_eq!(files, vec![".env", ".env.local", "config/dev.toml"]);
}

#[test]
fn test_parse_devwork_comments_and_blanks() {
    let content = "# Local environment files\n.env\n\n# Config\nconfig/dev.toml\n\n";
    let files = parse_devwork(content);
    assert_eq!(files, vec![".env", "config/dev.toml"]);
}

#[test]
fn test_parse_devwork_empty() {
    let files = parse_devwork("");
    assert!(files.is_empty());
}

#[test]
fn test_parse_devwork_only_comments() {
    let files = parse_devwork("# comment\n# another\n");
    assert!(files.is_empty());
}

#[test]
fn test_parse_devwork_whitespace_trimming() {
    let content = "  .env  \n  config/dev.toml  \n";
    let files = parse_devwork(content);
    assert_eq!(files, vec![".env", "config/dev.toml"]);
}

#[test]
fn parse_devwork_crlf_and_indented_comment() {
    let files = parse_devwork(".env\r\n   # note\r\n\tdata.csv\r\n");
    assert_eq!(files, vec![".env", "data.csv"]);
}

fn listing() -> Vec<String> {
    ["data_users.csv", "data_orders.csv", "other.csv", "config/dev.toml", "config/keep.json"]
        .iter()
        .map(|s| s.to_string())
        .collect()
}

#[test]
fn expand_glob_keeps_matching_files_in_order() {
    let files = listing();
    assert_eq!(
        expand_pattern("data_*.csv", &files, false),
        vec!["data_users.csv", "data_orders.csv"]
    );
    assert_eq!(expand_pattern("config/*.toml", &files, false), vec!["config/dev.toml"]);
    assert!(expand_pattern("*.xyz", &files, false).is_empty());
}

#[test]
fn expand_invalid_glob_gives_nothing() {
    assert!(expand_pattern("data_[.csv", &listing(), true).is_empty());
}

#[test]
fn expand_literal_needs_existence() {
    assert_eq!(expand_pattern(".env", &listing(), true), vec![".env"]);
    assert!(expand_pattern("missing-file", &listing(), false).is_empty());
}

#[test]
fn worktree_path_convention() {
    assert_eq!(
        worktree_path("/home/u/worktrees", "/home/u/src/myproject", "feature-x"),
        "/home/u/worktrees/myproject--feature-x"
    );
    assert_eq!(
        worktree_path("/wt/", "/src/app", "f"),
        "/wt/app--f"
    );
    assert_eq!(worktree_path("/wt", "/", "f"), "/wt/unknown--f");
}

#[test]
fn short_name_strips_project_prefix() {
    assert_eq!(
        worktree_short_name("/src/myapp", "/wt/myapp--feature").unwrap(),
        "feature"
    );
    assert!(worktree_short_name("/src/myapp", "/wt/other--feature").is_none());
    let target = worktree_path("/wt", "/src/myapp", "fix-1");
    assert_eq!(worktree_short_name("/src/myapp", &target).unwrap(), "fix-1");
}

#[test]
fn branch_resolution_order() {
    assert_eq!(plan_branch(true, true, Some("dev")), BranchPlan::CheckoutExisting);
    assert_eq!(plan_branch(false, true, None), BranchPlan::CheckoutExisting);
    assert_eq!(
        plan_branch(false, false, Some("develop")),
        BranchPlan::NewBranchFrom("develop".to_string())
    );
    assert_eq!(plan_branch(false, false, None), BranchPlan::NewBranchFromDefault);
}

#[test]
fn devwork_parts_joined_by_a_line_break() {
    let a = ".env\n# comment";
    let b = "  config/*.toml \n\n.env.local";
    let mut joined = parse_devwork(a);
    joined.extend(parse_devwork(b));
    assert_eq!(parse_devwork(&format!("{}\n{}", a, b)), joined);
    assert_eq!(joined, vec![".env", "config/*.toml", ".env.local"]);
}

#[test]
fn glob_too_large_to_build_expands_to_nothing() {
    let pattern = "[!a]".repeat(20000);
    let files = vec!["x".to_string()];
    assert!(expand_pattern(&pattern, &files, true).is_empty());
}

#[test]
fn default_branch_follows_origin_head() {
    assert_eq!(
        default_branch(Some("refs/remotes/origin/develop"), true, true),
        Some("develop".to_string())
    );
}

#[test]
fn default_branch_falls_back_to_main_then_master() {
    assert_eq!(default_branch(None, true, true), Some("main".to_string()));
    assert_eq!(default_branch(None, false, true), Some("master".to_string()));
    assert_eq!(default_branch(Some("refs/heads/trunk"), false, true), Some("master".to_string()));
    assert_eq!(default_branch(None, false, false), None);
}

#[test]
fn different_names_get_different_worktree_directories() {
    let a = worktree_path("/home/u/worktrees", "/src/myapp", "feature-x");
    let b = worktree_path("/home/u/worktrees", "/src/myapp", "feature-y");
    assert_eq!(a, "/home/u/worktrees/myapp--feature-x");
    assert_ne!(a, b);
}
