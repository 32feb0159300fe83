use cargo_furnish::doc_injection::{check_doc_include, fix_doc_include, DocDiagnostic, DocFix};
use cargo_furnish::source::{SourceText, Span};

const DOC: &str = "#![doc = include_str!(\"../README.md\")]";

fn src(text: &str) -> SourceText {
    SourceText { name: "src/lib.rs".to_string(), text: text.to_string() }
}

#[test]
fn check_doc_include_present() {
    let s = src(&format!("{DOC}\n\nfn main() {{}}\n"));
    assert!(check_doc_include(Some(&s), "c").is_empty());
    let s = src(&format!("  {DOC}  \r\nfn main() {{}}\n"));
    assert!(check_doc_include(Some(&s), "c").is_empty());
}

#[test]
fn check_doc_include_no_file() {
    assert!(check_doc_include(None, "c").is_empty());
}

#[test]
fn check_doc_include_reports_doc_comment() {
    let s = src("use x;\n//! Crate docs\nfn f() {}\n");
    let d = check_doc_include(Some(&s), "mycrate");
    assert_eq!(d.len(), 1);
    match &d[0] {
        DocDiagnostic::Exists(e) => {
            assert_eq!(e.span, Span { offset: 7, len: 14 });
            assert_eq!(e.crate_name, "mycrate");
            assert_eq!(e.src.text, s.text);
            assert_eq!(e.src.name, "src/lib.rs");
        }
        _ => panic!("wrong kind"),
    }
}

#[test]
fn check_doc_include_offsets_count_bytes() {
    let s = src("// é\n//! docs\n");
    match &check_doc_include(Some(&s), "c")[0] {
        DocDiagnostic::Exists(e) => assert_eq!(e.span, Span { offset: 6, len: 8 }),
        _ => panic!("wrong kind"),
    }
}

#[test]
fn check_doc_include_reports_missing() {
    let s = src("fn main() {}\n");
    match &check_doc_include(Some(&s), "c")[0] {
        DocDiagnostic::Missing(e) => assert_eq!(e.span, Span { offset: 0, len: 12 }),
        _ => panic!("wrong kind"),
    }
    let s = src("");
    match &check_doc_include(Some(&s), "c")[0] {
        DocDiagnostic::Missing(e) => assert_eq!(e.span, Span { offset: 0, len: 1 }),
        _ => panic!("wrong kind"),
    }
}

#[test]
fn fix_doc_include_unchanged_when_present() {
    let s = src(&format!("{DOC}\nfn main() {{}}\n"));
    assert!(matches!(fix_doc_include(&s, "c", false), Ok(DocFix::Unchanged)));
    assert!(matches!(fix_doc_include(&s, "c", true), Ok(DocFix::Unchanged)));
}

#[test]
fn fix_doc_include_refuses_doc_comments_without_force() {
    let s = src("//! Docs\nfn f() {}\n");
    match fix_doc_include(&s, "mycrate", false) {
        Err(e) => {
            assert_eq!(e.span, Span { offset: 0, len: 8 });
            assert_eq!(e.crate_name, "mycrate");
        }
        Ok(_) => panic!("expected an error"),
    }
}

#[test]
fn fix_doc_include_replaces_doc_comments_with_force() {
    let s = src("//! Docs\n//! More\n\n\nuse x;\n//! later\nfn f() {}\n");
    match fix_doc_include(&s, "c", true) {
        Ok(DocFix::Rewritten(t)) => {
            assert_eq!(t, format!("{DOC}\n\nuse x;\n//! later\nfn f() {{}}\n"));
        }
        _ => panic!("expected a rewrite"),
    }
}

#[test]
fn fix_doc_include_prepends_to_plain_file() {
    let s = src("fn main() {}");
    match fix_doc_include(&s, "c", false) {
        Ok(DocFix::Rewritten(t)) => assert_eq!(t, format!("{DOC}\n\nfn main() {{}}\n")),
        _ => panic!("expected a rewrite"),
    }
}

#[test]
fn fix_doc_include_only_doc_comments() {
    let s = src("//! only\n\n");
    match fix_doc_include(&s, "c", true) {
        Ok(DocFix::Rewritten(t)) => assert_eq!(t, format!("{DOC}\n")),
        _ => panic!("expected a rewrite"),
    }
}

#[test]
fn fix_doc_include_then_check_finds_nothing() {
    for text in ["fn main() {}\n", "//! a\n//! b\n\nmod x;\n", "", "\n\n"] {
        let s = src(text);
        let fixed = match fix_doc_include(&s, "c", true) {
            Ok(DocFix::Rewritten(t)) => t,
            _ => panic!("expected a rewrite"),
        };
        let again = src(&fixed);
        assert!(check_doc_include(Some(&again), "c").is_empty());
        assert!(matches!(fix_doc_include(&again, "c", false), Ok(DocFix::Unchanged)));
    }
}

#[test]
fn fix_doc_include_with_force_drops_doc_comment_after_blank_line() {
    let s = src("\n//! A\nfn f() {}\n");
    match fix_doc_include(&s, "c", true) {
        Ok(DocFix::Rewritten(t)) => assert_eq!(t, format!("{DOC}\n\nfn f() {{}}\n")),
        _ => panic!("expected a rewrite"),
    }
}

#[test]
fn fix_doc_include_with_force_drops_interleaved_doc_comments() {
    let s = src("//! A\n\n//! B\n\nfn f() {}\n//! kept\n");
    match fix_doc_include(&s, "c", true) {
        Ok(DocFix::Rewritten(t)) => assert_eq!(t, format!("{DOC}\n\nfn f() {{}}\n//! kept\n")),
        _ => panic!("expected a rewrite"),
    }
}
