use cargo_furnish::update::{plan_update, split_list, unescape_newlines, UpdateArgs};
use cargo_furnish::workspace::WorkspaceInfo;

#[test]
fn unescape_newlines_cases() {
    assert_eq!(unescape_newlines("## Usage\\n\\nText"), "## Usage\n\nText");
    assert_eq!(unescape_newlines("no escapes"), "no escapes");
    assert_eq!(unescape_newlines("\\\\n"), "\\\n");
    assert_eq!(unescape_newlines("\\"), "\\");
    assert_eq!(unescape_newlines(""), "");
}

#[test]
fn split_list_cases() {
    assert_eq!(split_list("json-schema, schemastore ,validation"), vec!["json-schema", "schemastore", "validation"]);
    assert_eq!(split_list(""), vec![""]);
    assert_eq!(split_list("a,,b,"), vec!["a", "", "b", ""]);
}

fn ws(repository: Option<&str>, license: Option<&str>) -> WorkspaceInfo {
    WorkspaceInfo {
        package_fields: vec![],
        repository: repository.map(String::from),
        license: license.map(String::from),
        has_workspace_lints: false,
    }
}

#[test]
fn plan_update_uses_workspace_values() {
    let args = UpdateArgs {
        description: Some("Line\\nTwo".to_string()),
        readme: None,
        keywords: Some("a, b".to_string()),
        categories: None,
        force: true,
    };
    let p = plan_update(&args, &ws(Some("https://github.com/o/r"), Some("MIT")));
    assert_eq!(p.description.as_deref(), Some("Line\nTwo"));
    assert_eq!(p.readme_body, None);
    assert_eq!(p.keywords, Some(vec!["a".to_string(), "b".to_string()]));
    assert_eq!(p.categories, None);
    assert_eq!(p.repository, "https://github.com/o/r");
    assert_eq!(p.license_text, "MIT");
    assert!(p.force);
}

#[test]
fn plan_update_defaults() {
    let args = UpdateArgs { description: None, readme: Some("x\\ny".to_string()), keywords: None, categories: Some("c1,c2".to_string()), force: false };
    let p = plan_update(&args, &ws(None, None));
    assert_eq!(p.readme_body.as_deref(), Some("x\ny"));
    assert_eq!(p.categories, Some(vec!["c1".to_string(), "c2".to_string()]));
    assert_eq!(p.repository, "https://github.com/macalinao/cargo-furnish");
    assert_eq!(p.license_text, "Apache-2.0");
    assert!(!p.force);
}

#[test]
fn unescape_newlines_twice_changes_nothing() {
    for s in ["## Usage\\n\\nText", "\\\\n", "\\\\\\nn", "a\\", "\\n\\n\\", "plain"] {
        let once = unescape_newlines(s);
        assert!(!once.contains("\\n"));
        assert_eq!(unescape_newlines(&once), once);
    }
}
