use cargo_furnish::workspace::{
    find_member_by_name, is_workspace_manifest, member_patterns_from, package_field,
    parse_workspace, workspace_info_from, workspace_member_patterns, WorkspaceError,
};

const ROOT: &str = r#"
[workspace]
members = ["crates/*", "tools/x"]

[workspace.package]
edition = "2024"
license = "Apache-2.0"
repository = "https://github.com/o/r"

[workspace.lints.clippy]
all = "warn"
"#;

#[test]
fn parse_workspace_reads_fields() {
    let info = parse_workspace(ROOT).unwrap();
    assert_eq!(info.package_fields, vec!["edition", "license", "repository"]);
    assert_eq!(info.repository.as_deref(), Some("https://github.com/o/r"));
    assert_eq!(info.license.as_deref(), Some("Apache-2.0"));
    assert!(info.has_workspace_lints);
}

#[test]
fn parse_workspace_without_lints_or_strings() {
    let info = parse_workspace("[workspace]\n[workspace.package]\nlicense = 3\n").unwrap();
    assert_eq!(info.package_fields, vec!["license"]);
    assert_eq!(info.license, None);
    assert_eq!(info.repository, None);
    assert!(!info.has_workspace_lints);
}

#[test]
fn parse_workspace_errors() {
    assert_eq!(parse_workspace("[[[").unwrap_err(), WorkspaceError::Parse);
    assert_eq!(parse_workspace("[package]\nname = \"x\"\n").unwrap_err(), WorkspaceError::NoWorkspaceTable);
    assert_eq!(parse_workspace("workspace = 1\n").unwrap_err(), WorkspaceError::NoWorkspaceTable);
    assert_eq!(parse_workspace("[workspace]\nmembers = []\n").unwrap_err(), WorkspaceError::NoWorkspacePackage);
    assert_eq!(parse_workspace("[workspace]\npackage = { a = 1 }\n").unwrap_err(), WorkspaceError::NoWorkspacePackage);
}

#[test]
fn workspace_info_from_keeps_first_occurrences() {
    let keys = vec!["a".to_string(), "b".to_string(), "a".to_string()];
    let info = workspace_info_from(&keys, None, Some("MIT".to_string()), true);
    assert_eq!(info.package_fields, vec!["a", "b"]);
    assert_eq!(info.license.as_deref(), Some("MIT"));
    assert!(info.has_workspace_lints);
}

#[test]
fn member_patterns_cases() {
    let (p, e) = workspace_member_patterns(ROOT).unwrap();
    assert_eq!(p, vec!["crates/*", "tools/x"]);
    assert_eq!(e, None);
    let (p, e) = workspace_member_patterns("[workspace]\nmembers = [\"a\", 1, \"b\"]\n").unwrap();
    assert_eq!(p, vec!["a"]);
    assert_eq!(e, Some(WorkspaceError::MemberNotString));
    assert_eq!(workspace_member_patterns("[workspace]\n").unwrap_err(), WorkspaceError::MembersNotFound);
    assert_eq!(workspace_member_patterns("[workspace\n").unwrap_err(), WorkspaceError::Parse);
}

#[test]
fn member_patterns_from_cases() {
    let items = vec![Some("a".to_string()), None, Some("b".to_string())];
    let (p, e) = member_patterns_from(&items);
    assert_eq!(p, vec!["a"]);
    assert_eq!(e, Some(WorkspaceError::MemberNotString));
    let (p, e) = member_patterns_from(&vec![]);
    assert!(p.is_empty());
    assert_eq!(e, None);
}

#[test]
fn is_workspace_manifest_cases() {
    assert!(is_workspace_manifest(ROOT));
    assert!(is_workspace_manifest("workspace = 1\n"));
    assert!(!is_workspace_manifest("[package]\nname = \"a\"\n"));
    assert!(!is_workspace_manifest("[workspace"));
}

#[test]
fn package_field_cases() {
    let m = "[package]\nname = \"foo\"\ndescription = \"A crate\"\n";
    assert_eq!(package_field(m, "name").as_deref(), Some("foo"));
    assert_eq!(package_field(m, "description").as_deref(), Some("A crate"));
    assert_eq!(package_field(m, "license"), None);
    assert_eq!(package_field("[workspace]\n", "name"), None);
    assert_eq!(package_field("package = { name = \"x\" }", "name"), None);
    assert_eq!(package_field("not toml [", "name"), None);
}

#[test]
fn find_member_by_name_cases() {
    let names = vec![None, Some("a".to_string()), Some("b".to_string()), Some("b".to_string())];
    assert_eq!(find_member_by_name(&names, "b"), Some(2));
    assert_eq!(find_member_by_name(&names, "a"), Some(1));
    assert_eq!(find_member_by_name(&names, "c"), None);
}

#[test]
fn parse_workspace_lints_from_sub_table() {
    let info = parse_workspace(
        "[workspace]\n[workspace.package]\nlicense = 'MIT'\n[workspace.lints.clippy]\nall = 'warn'\n",
    )
    .unwrap();
    assert!(info.has_workspace_lints);
    assert_eq!(info.license.as_deref(), Some("MIT"));
    assert_eq!(info.repository, None);
    assert_eq!(info.package_fields, vec!["license"]);
}

#[test]
fn member_patterns_not_an_array() {
    assert_eq!(
        workspace_member_patterns("[workspace]\nmembers = \"crates/*\"\n").unwrap_err(),
        WorkspaceError::MembersNotFound
    );
    assert_eq!(workspace_member_patterns("workspace = 1\n").unwrap_err(), WorkspaceError::MembersNotFound);
    assert_eq!(workspace_member_patterns("[package]\nname = \"a\"\n").unwrap_err(), WorkspaceError::MembersNotFound);
}

#[test]
fn package_field_names_each_member() {
    let manifests = ["[package]\nname = \"a\"\n", "not toml [", "[package]\nname = 1\n", "[package]\nname = \"b\"\n"];
    let names: Vec<Option<String>> = manifests.iter().map(|m| package_field(m, "name")).collect();
    assert_eq!(names, vec![Some("a".to_string()), None, None, Some("b".to_string())]);
    assert_eq!(find_member_by_name(&names, "b"), Some(3));
}
