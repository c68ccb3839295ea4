use yawn::session::{build_command, plan_open, shell_quote, OpenPlan};

#[test]
fn test_shell_quote_safe_string() {
    assert_eq!(shell_quote("/home/user/project"), "/home/user/project");
    assert_eq!(shell_quote("my-app"), "my-app");
    assert_eq!(shell_quote("foo.bar"), "foo.bar");
}

#[test]
fn test_shell_quote_empty() {
    assert_eq!(shell_quote(""), "''");
}

#[test]
fn test_shell_quote_spaces() {
    assert_eq!(
        shell_quote("/home/user/my project"),
        "'/home/user/my project'"
    );
}

#[test]
fn test_shell_quote_single_quotes() {
    assert_eq!(shell_quote("it's"), "'it'\\''s'");
}

#[test]
fn test_shell_quote_metacharacters() {
    assert_eq!(shell_quote("foo; rm -rf /"), "'foo; rm -rf /'");
    assert_eq!(shell_quote("$(whoami)"), "'$(whoami)'");
    assert_eq!(shell_quote("a`cmd`b"), "'a`cmd`b'");
}

#[test]
fn test_build_command_both_placeholders() {
    let result = build_command(
        "kitty --directory {dir} --title {name}",
        "/home/user/project",
        "project",
    );
    assert_eq!(
        result,
        "kitty --directory /home/user/project --title project"
    );
}

#[test]
fn test_build_command_dir_only() {
    let result = build_command("code {dir}", "/tmp/myproject", "myproject");
    assert_eq!(result, "code /tmp/myproject");
}

#[test]
fn test_build_command_name_only() {
    let result = build_command("tmux new -s {name}", "/tmp/foo", "foo");
    assert_eq!(result, "tmux new -s foo");
}

#[test]
fn test_build_command_no_placeholders() {
    let result = build_command("echo hello", "/tmp/foo", "foo");
    assert_eq!(result, "echo hello");
}

#[test]
fn test_build_command_multiple_occurrences() {
    let result = build_command("{dir} {dir} {name}", "/a", "b");
    assert_eq!(result, "/a /a b");
}

#[test]
fn test_build_command_dir_with_spaces() {
    let result = build_command("code {dir}", "/home/user/my project", "my project");
    assert_eq!(result, "code '/home/user/my project'");
}

#[test]
fn test_build_command_injection_attempt() {
    let result = build_command("code {dir}", "/tmp/foo; rm -rf /", "bar");
    assert_eq!(result, "code '/tmp/foo; rm -rf /'");
}

#[test]
fn quoting_non_ascii_and_unicode() {
    assert_eq!(shell_quote("café"), "'café'");
    assert_eq!(shell_quote("a,b+c=d@e:f"), "a,b+c=d@e:f");
}

#[test]
fn placeholders_inside_values_are_left_alone() {
    assert_eq!(build_command("x {dir}", "/a{name}", "n"), "x '/a{name}'");
    assert_eq!(build_command("code {dir}", "/tmp/{name}", "a b"), "code '/tmp/{name}'");
    assert_eq!(build_command("{name} {dir}", "/d", "{dir}"), "'{dir}' /d");
}

#[test]
fn placeholders_filled_in_one_pass() {
    assert_eq!(build_command("{dir}{name}{dir}", "/d", "n"), "/dn/d");
    assert_eq!(build_command("{{dir}}", "/d", "n"), "{/d}");
    assert_eq!(build_command("{nam{dir}e}", "x", "n"), "{namxe}");
}

#[test]
fn opener_given_for_the_call_comes_first() {
    assert_eq!(
        plan_open("/home/u/my app", Some("code {dir}"), Some("kitty {dir}"), Some("xterm")),
        OpenPlan::Shell("code '/home/u/my app'".to_string())
    );
}

#[test]
fn configured_opener_gets_the_directory_name() {
    assert_eq!(
        plan_open("/w/proj", None, Some("kitty --directory {dir} --title {name}"), None),
        OpenPlan::Shell("kitty --directory /w/proj --title proj".to_string())
    );
    assert_eq!(
        plan_open("/", None, Some("t {name}"), None),
        OpenPlan::Shell("t unknown".to_string())
    );
}

#[test]
fn without_opener_terminal_then_platform_default() {
    assert_eq!(
        plan_open("/w/proj", None, None, Some("alacritty")),
        OpenPlan::Terminal("alacritty".to_string())
    );
    assert_eq!(plan_open("/w/proj", None, None, None), OpenPlan::PlatformDefault);
}
