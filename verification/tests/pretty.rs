use yawn::pretty::{
    build_pretty_names, finder_input, list_json, picked_name, resolve, shortest_unique_suffixes,
    worktree_main_repo_name, Project, ResolveError,
};

fn repo(path: &str) -> Project {
    Project { path: path.to_string(), git_file: None }
}

/// A worktree at `path` of the main repository at `main_repo`, with the
/// `.git` file that git writes for it.
fn worktree(path: &str, main_repo: &str) -> Project {
    let name = path.rsplit('/').next().unwrap();
    Project {
        path: path.to_string(),
        git_file: Some(format!("gitdir: {}/.git/worktrees/{}", main_repo, name)),
    }
}

#[test]
fn test_worktree_main_repo_name() {
    let content = "gitdir: /tmp/x/cargostack-backend/.git/worktrees/cargostack-backend--fix-branch";
    let name = worktree_main_repo_name(content).unwrap();
    assert_eq!(name, "cargostack-backend");
}

#[test]
fn main_repo_name_trims_and_needs_three_parents() {
    assert_eq!(
        worktree_main_repo_name("gitdir: /srv/app/.git/worktrees/w\n").unwrap(),
        "app"
    );
    assert_eq!(worktree_main_repo_name("/srv/app/.git/worktrees/w").unwrap(), "app");
    assert!(worktree_main_repo_name("gitdir: .git/worktrees").is_none());
    assert!(worktree_main_repo_name("gitdir: /.git/worktrees/w").is_none());
}

#[test]
fn test_pretty_simple_repos() {
    let paths = vec![repo("/tmp/t/alpha"), repo("/tmp/t/beta")];
    let entries = build_pretty_names(&paths);
    assert_eq!(entries[0].display_name, "alpha");
    assert_eq!(entries[1].display_name, "beta");
}

#[test]
fn test_pretty_worktree_annotation() {
    let paths = vec![
        repo("/tmp/t/cargostack-backend"),
        worktree("/tmp/t/cargostack-backend--fix-branch", "/tmp/t/cargostack-backend"),
    ];
    let entries = build_pretty_names(&paths);
    assert_eq!(entries[0].display_name, "cargostack-backend");
    assert_eq!(
        entries[1].display_name,
        "fix-branch [worktree of cargostack-backend]"
    );
}

#[test]
fn test_pretty_collision_disambiguation() {
    let paths = vec![
        repo("/tmp/t/Workspace/mnemo"),
        repo("/tmp/t/Documents/projects/mnemo"),
    ];
    let entries = build_pretty_names(&paths);
    assert!(
        entries[0].display_name.contains("Workspace"),
        "expected Workspace disambiguation, got: {}",
        entries[0].display_name
    );
    assert!(
        entries[1].display_name.contains("projects"),
        "expected projects disambiguation, got: {}",
        entries[1].display_name
    );
    assert_eq!(entries[0].display_name, "mnemo (Workspace)");
    assert_eq!(entries[1].display_name, "mnemo (projects)");
}

#[test]
fn test_pretty_collision_shortest_suffix() {
    let paths = vec![
        repo("/tmp/t/a/projects/mnemo"),
        repo("/tmp/t/b/projects/mnemo"),
    ];
    let entries = build_pretty_names(&paths);
    assert!(
        entries[0].display_name.contains("a/projects") || entries[0].display_name.contains("a"),
        "expected 'a' disambiguation, got: {}",
        entries[0].display_name
    );
    assert!(
        entries[1].display_name.contains("b/projects") || entries[1].display_name.contains("b"),
        "expected 'b' disambiguation, got: {}",
        entries[1].display_name
    );
    assert_eq!(entries[0].display_name, "mnemo (a/projects)");
}

#[test]
fn test_pretty_no_collision_no_suffix() {
    let paths = vec![repo("/tmp/t/alpha"), repo("/tmp/t/beta")];
    let entries = build_pretty_names(&paths);
    assert!(!entries[0].display_name.contains('('));
    assert!(!entries[1].display_name.contains('('));
}

#[test]
fn test_pretty_worktree_with_collision() {
    let paths = vec![
        repo("/tmp/t/Workspace/feature"),
        worktree("/tmp/t/worktrees/myapp--feature", "/tmp/t/worktrees/myapp"),
    ];
    let entries = build_pretty_names(&paths);
    let wt_entry = &entries[1];
    assert!(
        wt_entry.display_name.contains("[worktree of myapp]"),
        "expected worktree annotation, got: {}",
        wt_entry.display_name
    );
    assert!(
        wt_entry.display_name.contains('('),
        "expected disambiguation, got: {}",
        wt_entry.display_name
    );
    assert_eq!(wt_entry.display_name, "feature (worktrees) [worktree of myapp]");
    assert_eq!(entries[0].display_name, "feature (Workspace)");
}

#[test]
fn test_resolve_exact_match() {
    let paths = vec![repo("/tmp/t/alpha"), repo("/tmp/t/beta")];
    let result = resolve("alpha", &paths).unwrap();
    assert_eq!(result, "/tmp/t/alpha");
}

#[test]
fn test_resolve_worktree() {
    let paths = vec![
        repo("/tmp/t/myapp"),
        worktree("/tmp/t/myapp--feature", "/tmp/t/myapp"),
    ];
    let result = resolve("feature [worktree of myapp]", &paths).unwrap();
    assert_eq!(result, "/tmp/t/myapp--feature");
}

#[test]
fn test_resolve_no_match() {
    let paths = vec![repo("/tmp/t/alpha")];
    let result = resolve("nonexistent", &paths);
    assert!(result.is_err());
    assert_eq!(result, Err(ResolveError::NoMatch));
}

#[test]
fn test_resolve_disambiguated_name() {
    let paths = vec![repo("/tmp/t/Workspace/mnemo"), repo("/tmp/t/Documents/mnemo")];
    let entries = build_pretty_names(&paths);
    let result = resolve(&entries[0].display_name, &paths).unwrap();
    assert_eq!(result, "/tmp/t/Workspace/mnemo");
    let result = resolve(&entries[1].display_name, &paths).unwrap();
    assert_eq!(result, "/tmp/t/Documents/mnemo");
}

#[test]
fn resolve_ambiguous_counts_matches() {
    let paths = vec![repo("/x/mnemo"), repo("/x/mnemo/"), repo("/y/other")];
    assert_eq!(resolve("mnemo ()", &paths), Err(ResolveError::Ambiguous(2)));
}

#[test]
fn test_shortest_unique_suffixes_simple() {
    let paths = vec![
        "/home/user/Workspace/mnemo".to_string(),
        "/home/user/Documents/projects/mnemo".to_string(),
    ];
    let suffixes = shortest_unique_suffixes(&paths);
    assert_eq!(suffixes[0], "Workspace");
    assert_eq!(suffixes[1], "projects");
}

#[test]
fn test_shortest_unique_suffixes_deeper() {
    let paths = vec!["/x/a/shared/mnemo".to_string(), "/x/b/shared/mnemo".to_string()];
    let suffixes = shortest_unique_suffixes(&paths);
    assert_eq!(suffixes[0], "a/shared");
    assert_eq!(suffixes[1], "b/shared");
}

#[test]
fn suffixes_of_nested_and_root_parents() {
    let paths = vec!["/q/mnemo".to_string(), "/p/q/mnemo".to_string(), "/mnemo".to_string()];
    let suffixes = shortest_unique_suffixes(&paths);
    assert_eq!(suffixes[0], "//q");
    assert_eq!(suffixes[1], "p/q");
    assert_eq!(suffixes[2], "/");
}

#[test]
fn test_three_way_collision() {
    let paths = vec![repo("/tmp/t/x/mnemo"), repo("/tmp/t/y/mnemo"), repo("/tmp/t/z/mnemo")];
    let entries = build_pretty_names(&paths);
    let names: Vec<&str> = entries.iter().map(|e| e.display_name.as_str()).collect();
    assert_eq!(names.len(), 3);
    assert_ne!(names[0], names[1]);
    assert_ne!(names[1], names[2]);
    assert_ne!(names[0], names[2]);
}

#[test]
fn finder_round_trip() {
    let paths = vec![repo("/tmp/t/alpha"), repo("/tmp/t/beta")];
    let entries = build_pretty_names(&paths);
    assert_eq!(finder_input(&entries), "alpha\nbeta");
    assert_eq!(picked_name("  beta\n").unwrap(), "beta");
    assert!(picked_name(" \n").is_none());
}

#[test]
fn display_names_use_the_suffixes_of_their_collision_group() {
    let projects = vec![
        repo("/home/u/Workspace/mnemo"),
        repo("/home/u/dotfiles"),
        repo("/home/u/Documents/projects/mnemo"),
    ];
    let group = vec![projects[0].path.clone(), projects[2].path.clone()];
    let suffixes = shortest_unique_suffixes(&group);
    let names = build_pretty_names(&projects);
    assert_eq!(names[0].display_name, format!("mnemo ({})", suffixes[0]));
    assert_eq!(names[2].display_name, format!("mnemo ({})", suffixes[1]));
    assert_eq!(names[1].display_name, "dotfiles");
}

#[test]
fn list_json_holds_path_and_name_of_each_entry() {
    let entries = build_pretty_names(&vec![repo("/w/a\"b"), repo("/x/dotfiles")]);
    let text = list_json(&entries);
    let value: serde_json::Value = serde_json::from_str(&text).unwrap();
    let items = value.as_array().unwrap();
    assert_eq!(items.len(), 2);
    assert_eq!(items[0]["path"], "/w/a\"b");
    assert_eq!(items[0]["name"], "a\"b");
    assert_eq!(items[1]["path"], "/x/dotfiles");
    assert_eq!(items[1]["name"], "dotfiles");
    assert!(text.contains("\n  {"));
}

#[test]
fn list_json_of_nothing_is_an_empty_array() {
    assert_eq!(list_json(&Vec::new()), "[]");
}
