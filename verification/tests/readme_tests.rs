use cargo_furnish::readme::{
    check_readme, fix_readme, generate_readme, is_default_readme, last_line_span,
    ReadmeDiagnostic, ReadmeParams,
};
use cargo_furnish::source::{FileRead, SourceText, Span};

fn params<'a>(description: Option<&'a str>, body: Option<&'a str>) -> ReadmeParams<'a> {
    ReadmeParams {
        crate_name: "schemastore",
        description,
        body,
        repository: "https://github.com/macalinao/cargo-furnish",
        license_text: "Apache-2.0",
    }
}

const FULL: &str = "# schemastore\n\n\
[![Crates.io](https://img.shields.io/crates/v/schemastore.svg)](https://crates.io/crates/schemastore)\n\
[![docs.rs](https://docs.rs/schemastore/badge.svg)](https://docs.rs/schemastore)\n\
[![CI](https://github.com/macalinao/cargo-furnish/actions/workflows/ci.yml/badge.svg)](https://github.com/macalinao/cargo-furnish/actions/workflows/ci.yml)\n\
[![License](https://img.shields.io/crates/l/schemastore.svg)](https://github.com/macalinao/cargo-furnish/blob/master/LICENSE)\n\
\n\
Parse and match files\n\
\n\
## Usage\n\
\n\
## License\n\
\n\
Apache-2.0\n";

fn kinds(d: &[ReadmeDiagnostic]) -> Vec<&'static str> {
    d.iter()
        .map(|x| match x {
            ReadmeDiagnostic::Missing(_) => "missing",
            ReadmeDiagnostic::CratesBadge(_) => "crates",
            ReadmeDiagnostic::DocsBadge(_) => "docs",
            ReadmeDiagnostic::CiBadge(_) => "ci",
            ReadmeDiagnostic::LicenseBadge(_) => "license_badge",
            ReadmeDiagnostic::LicenseSection(_) => "license_section",
            ReadmeDiagnostic::DefaultReadme(_) => "default",
        })
        .collect()
}

fn read(text: &str) -> FileRead {
    FileRead::Read(SourceText { name: "README.md".to_string(), text: text.to_string() })
}

#[test]
fn generate_readme_full_template() {
    let out = generate_readme(&params(Some("Parse and match files"), Some("## Usage")));
    assert_eq!(out, FULL);
}

#[test]
fn generate_readme_without_description_or_body() {
    let out = generate_readme(&params(None, None));
    let expected = "# schemastore\n\n\
[![Crates.io](https://img.shields.io/crates/v/schemastore.svg)](https://crates.io/crates/schemastore)\n\
[![docs.rs](https://docs.rs/schemastore/badge.svg)](https://docs.rs/schemastore)\n\
[![CI](https://github.com/macalinao/cargo-furnish/actions/workflows/ci.yml/badge.svg)](https://github.com/macalinao/cargo-furnish/actions/workflows/ci.yml)\n\
[![License](https://img.shields.io/crates/l/schemastore.svg)](https://github.com/macalinao/cargo-furnish/blob/master/LICENSE)\n\
\n## License\n\nApache-2.0\n";
    assert_eq!(out, expected);
}

#[test]
fn generate_readme_repository_without_github_prefix() {
    let p = ReadmeParams {
        crate_name: "x",
        description: None,
        body: None,
        repository: "https://gitlab.com/a/b",
        license_text: "MIT",
    };
    let out = generate_readme(&p);
    assert!(out.contains("[![CI](https://github.com/https://gitlab.com/a/b/actions/workflows/ci.yml/badge.svg)](https://gitlab.com/a/b/actions/workflows/ci.yml)\n"));
    assert!(out.ends_with("\n## License\n\nMIT\n"));
}

#[test]
fn generate_readme_strips_repeated_github_prefix() {
    let p = ReadmeParams {
        crate_name: "x",
        description: None,
        body: None,
        repository: "https://github.com/https://github.com/o/r",
        license_text: "MIT",
    };
    let out = generate_readme(&p);
    assert!(out.contains("[![CI](https://github.com/o/r/actions/workflows/ci.yml/badge.svg)]("));
}

#[test]
fn check_readme_missing_file() {
    let d = check_readme(&FileRead::Missing, "foo", None);
    assert_eq!(kinds(&d), vec!["missing"]);
    match &d[0] {
        ReadmeDiagnostic::Missing(e) => assert_eq!(e.crate_name, "foo"),
        _ => panic!("wrong kind"),
    }
}

#[test]
fn check_readme_unreadable_file() {
    assert!(check_readme(&FileRead::Unreadable, "foo", None).is_empty());
}

#[test]
fn check_readme_full_template_has_no_issue() {
    let d = check_readme(&read(FULL), "schemastore", Some("Parse and match files"));
    assert!(d.is_empty());
}

#[test]
fn check_readme_generated_without_body_is_default() {
    let text = generate_readme(&params(Some("Parse and match files"), None));
    let d = check_readme(&read(&text), "schemastore", Some("Parse and match files"));
    assert_eq!(kinds(&d), vec!["default"]);
    match &d[0] {
        ReadmeDiagnostic::DefaultReadme(e) => {
            assert_eq!(e.span, Span { offset: 0, len: 13 });
            assert_eq!(e.crate_name, "schemastore");
            assert_eq!(e.src.name, "README.md");
            assert_eq!(e.src.text, text);
        }
        _ => panic!("wrong kind"),
    }
}

#[test]
fn check_readme_everything_missing() {
    let d = check_readme(&read("hello\n\nworld\n\n"), "c", None);
    assert_eq!(kinds(&d), vec!["crates", "docs", "ci", "license_badge", "license_section"]);
    match &d[0] {
        ReadmeDiagnostic::CratesBadge(e) => assert_eq!(e.span, Span { offset: 0, len: 5 }),
        _ => panic!("wrong kind"),
    }
    match &d[4] {
        ReadmeDiagnostic::LicenseSection(e) => assert_eq!(e.span, Span { offset: 7, len: 5 }),
        _ => panic!("wrong kind"),
    }
}

#[test]
fn check_readme_empty_file_spans() {
    let d = check_readme(&read(""), "c", None);
    assert_eq!(d.len(), 5);
    for x in &d {
        let span = match x {
            ReadmeDiagnostic::CratesBadge(e) => e.span,
            ReadmeDiagnostic::DocsBadge(e) => e.span,
            ReadmeDiagnostic::CiBadge(e) => e.span,
            ReadmeDiagnostic::LicenseBadge(e) => e.span,
            ReadmeDiagnostic::LicenseSection(e) => e.span,
            _ => panic!("unexpected"),
        };
        assert_eq!(span, Span { offset: 0, len: 1 });
    }
}

#[test]
fn check_readme_only_license_section_missing() {
    let text = "[![a](img.shields.io/crates/v/x docs.rs/ /actions/workflows/ img.shields.io/crates/l/)]\n";
    let d = check_readme(&read(text), "x", None);
    assert_eq!(kinds(&d), vec!["license_section"]);
}

#[test]
fn is_default_readme_cases() {
    assert!(is_default_readme("[![x](y)]\n\n## License\n", None));
    assert!(is_default_readme("[![x](y)]\n\nDesc\n\n## License\n", Some("  Desc ")));
    assert!(!is_default_readme("[![x](y)]\n\nDesc\n\n## License\n", None));
    assert!(!is_default_readme("[![x](y)]\n\nDesc\n\nMore\n## License\n", Some("Desc")));
    assert!(!is_default_readme("no badge\n## License\n", None));
    assert!(!is_default_readme("[![x](y)]\nno license\n", None));
    assert!(!is_default_readme("## License\n[![x](y)]\n", None));
    assert!(is_default_readme("[![a]]\n\n[![b]]\n\n## License\n", None));
}

#[test]
fn is_default_readme_joins_body_lines() {
    assert!(is_default_readme("[![x]]\nA\n\nB\n## License\n", Some("A\nB")));
    assert!(!is_default_readme("[![x]]\nA\n\nB\n## License\n", Some("A\n\nB")));
}

#[test]
fn last_line_span_cases() {
    assert_eq!(last_line_span("a\nbc\n\n"), Span { offset: 2, len: 2 });
    assert_eq!(last_line_span(""), Span { offset: 0, len: 1 });
    assert_eq!(last_line_span("\n\n"), Span { offset: 0, len: 1 });
    assert_eq!(last_line_span("é\nxy"), Span { offset: 3, len: 2 });
}

#[test]
fn fix_readme_refuses_existing_without_force() {
    let existing = SourceText { name: "crate/README.md".to_string(), text: "old".to_string() };
    let r = fix_readme(Some(&existing), &params(None, None), false);
    match r {
        Err(e) => {
            assert_eq!(e.existing_contents, "old");
            assert_eq!(e.crate_name, "schemastore");
            assert_eq!(e.span, Span { offset: 0, len: 1 });
            assert_eq!(e.src.name, "crate/README.md");
        }
        Ok(_) => panic!("expected an error"),
    }
}

#[test]
fn fix_readme_empty_existing_span() {
    let existing = SourceText { name: "README.md".to_string(), text: String::new() };
    match fix_readme(Some(&existing), &params(None, None), false) {
        Err(e) => assert_eq!(e.span, Span { offset: 0, len: 0 }),
        Ok(_) => panic!("expected an error"),
    }
}

#[test]
fn fix_readme_writes_with_force_or_when_absent() {
    let existing = SourceText { name: "README.md".to_string(), text: "old".to_string() };
    let p = params(Some("Parse and match files"), Some("## Usage"));
    assert_eq!(fix_readme(Some(&existing), &p, true).unwrap(), FULL);
    assert_eq!(fix_readme(None, &p, false).unwrap(), FULL);
}

#[test]
fn check_readme_stars_badge_is_not_a_ci_badge() {
    let text = FULL.replace(
        "[![CI](https://github.com/macalinao/cargo-furnish/actions/workflows/ci.yml/badge.svg)](https://github.com/macalinao/cargo-furnish/actions/workflows/ci.yml)",
        "[![GitHub](https://img.shields.io/github/stars/macalinao/cargo-furnish?style=flat)](https://github.com/macalinao/cargo-furnish)",
    );
    let d = check_readme(&read(&text), "schemastore", Some("Parse and match files"));
    assert_eq!(kinds(&d), vec!["ci"]);
}

#[test]
fn is_default_readme_whitespace_only_body() {
    assert!(is_default_readme("[![x](y)]\n   \n\t\n## License\n", None));
    assert!(is_default_readme("[![x](y)]\n  \n## License\n", Some("Desc")));
    assert!(!is_default_readme("[![x](y)]\n  a \n## License\n", None));
}

#[test]
fn check_of_generated_readme_with_multi_line_body_and_license() {
    let p = ReadmeParams {
        crate_name: "schemastore",
        description: Some("Parse and match files"),
        body: Some("## Features\n\n- Feature one\n- Feature two"),
        repository: "https://github.com/macalinao/cargo-furnish",
        license_text: "Licensed under Apache-2.0.\n\nSee LICENSE.",
    };
    let text = generate_readme(&p);
    assert!(check_readme(&read(&text), "schemastore", Some("Parse and match files")).is_empty());
}

#[test]
fn check_of_generated_readme_without_body_multi_line_license() {
    let p = ReadmeParams {
        crate_name: "schemastore",
        description: Some("Parse and match files"),
        body: None,
        repository: "https://github.com/macalinao/cargo-furnish",
        license_text: "Licensed under Apache-2.0.\n\nSee LICENSE.",
    };
    let text = generate_readme(&p);
    let d = check_readme(&read(&text), "schemastore", Some("Parse and match files"));
    assert_eq!(kinds(&d), vec!["default"]);
}
