//! README generation and the README check.

use vstd::prelude::*;

use crate::source::{owned, FileRead, SourceText, Span};
use crate::text::{
    byte_len, byte_len_of, chars_eq, chars_of, contains, contains_chars, count_leading,
    first_line_width, join_lines, last_with, lemma_contains_middle, lemma_count_leading_at,
    lemma_last_with_at, lemma_line_offset_mono, lemma_lines_within, line_offset, lines, lines_of,
    nonempty_lines, push_char, push_chars, push_str, starts_with, starts_with_chars, trim,
    trim_chars, trim_prefix_all, trim_prefix_all_chars, unlines, views, no_newline,
    lemma_no_newline_concat, lemma_trim_prefix_all_no_newline, lemma_starts_with_concat,
    lemma_starts_with_strip_cr, lemma_lines_unlines, lemma_trim_drop_ws_last, strip_cr,
    is_whitespace, lemma_trim_no_newline, lemma_trim_range, trim_start, split_on,
    lemma_split_unlines, lemma_split_single, lemma_split_content, lemma_nonempty_lines_concat,
    lemma_join_lines_cons, lemma_join_content, law_last_with_is_last, lemma_count_leading_stop,
    law_line_offset_counts_bytes,
};

verus! {

/// Parameters for README generation.
pub struct ReadmeParams<'a> {
    pub crate_name: &'a str,
    pub description: Option<&'a str>,
    pub body: Option<&'a str>,
    pub repository: &'a str,
    pub license_text: &'a str,
}

/// The characters of an optional string slice.
pub open spec fn opt_view(o: Option<&str>) -> Option<Seq<char>> {
    match o {
        Some(s) => Some(s@),
        None => None,
    }
}

/// The prefix of GitHub repository URLs, removed to get `owner/name`.
pub open spec fn github_prefix() -> Seq<char> {
    "https://github.com/"@
}

/// An optional paragraph: an empty line, the text, and a line break.
pub open spec fn paragraph(o: Option<Seq<char>>) -> Seq<char> {
    match o {
        Some(t) => seq!['\n'] + t + seq!['\n'],
        None => Seq::empty(),
    }
}

/// The heading line and the empty line after it.
pub open spec fn heading_part(name: Seq<char>) -> Seq<char> {
    "# "@ + name + "\n\n"@
}

/// The crates.io badge line.
pub open spec fn crates_badge_part(name: Seq<char>) -> Seq<char> {
    "[![Crates.io](https://"@ + "img.shields.io/crates/v/"@ + name
        + ".svg)](https://crates.io/crates/"@ + name + ")\n"@
}

/// The docs.rs badge line.
pub open spec fn docs_badge_part(name: Seq<char>) -> Seq<char> {
    "[![docs.rs](https://"@ + "docs.rs/"@ + name + "/badge.svg)](https://docs.rs/"@ + name
        + ")\n"@
}

/// The CI (GitHub Actions) badge line.
pub open spec fn ci_badge_part(repository: Seq<char>) -> Seq<char> {
    "[![CI](https://github.com/"@ + trim_prefix_all(repository, github_prefix())
        + "/actions/workflows/"@ + "ci.yml/badge.svg)]("@ + repository
        + "/actions/workflows/ci.yml)\n"@
}

/// The license badge line.
pub open spec fn license_badge_part(name: Seq<char>, repository: Seq<char>) -> Seq<char> {
    "[![License](https://"@ + "img.shields.io/crates/l/"@ + name + ".svg)]("@ + repository
        + "/blob/master/LICENSE)\n"@
}

/// The license section at the end.
pub open spec fn license_part(license: Seq<char>) -> Seq<char> {
    "\n"@ + "## License"@ + "\n\n"@ + license + "\n"@
}

/// The generated README: heading, four badges, the description and the body
/// as paragraphs when given, and the license section.
pub open spec fn readme_text(
    name: Seq<char>,
    description: Option<Seq<char>>,
    body: Option<Seq<char>>,
    repository: Seq<char>,
    license: Seq<char>,
) -> Seq<char> {
    heading_part(name) + crates_badge_part(name) + docs_badge_part(name) + ci_badge_part(
        repository,
    ) + license_badge_part(name, repository) + paragraph(description) + paragraph(body)
        + license_part(license)
}

/// The README that the given parameters describe.
pub open spec fn params_readme(p: ReadmeParams) -> Seq<char> {
    readme_text(
        p.crate_name@,
        opt_view(p.description),
        opt_view(p.body),
        p.repository@,
        p.license_text@,
    )
}

fn push_paragraph(out: &mut String, o: Option<&str>)
    ensures
        final(out)@ == old(out)@ + paragraph(opt_view(o)),
{
    match o {
        Some(t) => {
            push_char(out, '\n');
            push_str(out, t);
            push_char(out, '\n');
            assert(out@ =~= old(out)@ + paragraph(opt_view(o)));
        },
        None => {
            assert(out@ =~= old(out)@ + paragraph(opt_view(o)));
        },
    }
}

/// Generates README content from the template.
pub fn generate_readme(params: &ReadmeParams<'_>) -> (r: String)
    ensures
        r@ == params_readme(*params),
{
    let name = params.crate_name;
    let repository = params.repository;
    let mut out = String::new();

    push_str(&mut out, "# ");
    push_str(&mut out, name);
    push_str(&mut out, "\n\n");
    let ghost h = out@;
    assert(h =~= heading_part(name@));

    push_str(&mut out, "[![Crates.io](https://");
    push_str(&mut out, "img.shields.io/crates/v/");
    push_str(&mut out, name);
    push_str(&mut out, ".svg)](https://crates.io/crates/");
    push_str(&mut out, name);
    push_str(&mut out, ")\n");
    assert(out@ =~= h + crates_badge_part(name@));
    let ghost h = out@;

    push_str(&mut out, "[![docs.rs](https://");
    push_str(&mut out, "docs.rs/");
    push_str(&mut out, name);
    push_str(&mut out, "/badge.svg)](https://docs.rs/");
    push_str(&mut out, name);
    push_str(&mut out, ")\n");
    assert(out@ =~= h + docs_badge_part(name@));
    let ghost h = out@;

    let repo_chars = chars_of(repository);
    let prefix = chars_of("https://github.com/");
    let repo_path = trim_prefix_all_chars(&repo_chars, &prefix);
    push_str(&mut out, "[![CI](https://github.com/");
    push_chars(&mut out, &repo_path);
    push_str(&mut out, "/actions/workflows/");
    push_str(&mut out, "ci.yml/badge.svg)](");
    push_str(&mut out, repository);
    push_str(&mut out, "/actions/workflows/ci.yml)\n");
    assert(out@ =~= h + ci_badge_part(repository@));
    let ghost h = out@;

    push_str(&mut out, "[![License](https://");
    push_str(&mut out, "img.shields.io/crates/l/");
    push_str(&mut out, name);
    push_str(&mut out, ".svg)](");
    push_str(&mut out, repository);
    push_str(&mut out, "/blob/master/LICENSE)\n");
    assert(out@ =~= h + license_badge_part(name@, repository@));

    push_paragraph(&mut out, params.description);
    push_paragraph(&mut out, params.body);
    let ghost h = out@;

    push_str(&mut out, "\n");
    push_str(&mut out, "## License");
    push_str(&mut out, "\n\n");
    push_str(&mut out, params.license_text);
    push_str(&mut out, "\n");
    assert(out@ =~= h + license_part(params.license_text@));
    out
}

// ---------------------------------------------------------------------------
// The default-template test
// ---------------------------------------------------------------------------

/// The start of an inline badge line.
pub open spec fn badge_start() -> Seq<char> {
    "[!["@
}

/// The license heading.
pub open spec fn license_heading() -> Seq<char> {
    "## License"@
}

pub open spec fn is_badge_line() -> spec_fn(Seq<char>) -> bool {
    |l: Seq<char>| starts_with(l, badge_start())
}

pub open spec fn not_license_line() -> spec_fn(Seq<char>) -> bool {
    |l: Seq<char>| !starts_with(l, license_heading())
}

/// The README is the generated template with nothing of its own: between the
/// last badge line and the first `## License` line there is nothing but
/// whitespace and, possibly, the description.
pub open spec fn is_default_text(text: Seq<char>, description: Option<Seq<char>>) -> bool {
    let ls = lines(text);
    let badge_end = last_with(ls, is_badge_line());
    let lic_start = count_leading(ls, not_license_line()) as int;
    if badge_end < 0 || lic_start >= ls.len() || badge_end >= lic_start {
        false
    } else {
        let body = join_lines(nonempty_lines(ls.subrange(badge_end + 1, lic_start)));
        if trim(body).len() == 0 {
            true
        } else {
            match description {
                Some(d) => trim(body) == trim(d),
                None => false,
            }
        }
    }
}

/// Index of the last line starting with `p`, if any.
fn last_line_starting_with(ls: &Vec<Vec<char>>, p: &Vec<char>) -> (r: Option<usize>)
    requires
        p@ == badge_start(),
    ensures
        match r {
            Some(k) => k == last_with(views(ls@), is_badge_line()) && k < ls@.len(),
            None => last_with(views(ls@), is_badge_line()) == -1,
        },
{
    let ghost lv = views(ls@);
    let n = ls.len();
    let mut i = n;
    while i > 0 && !starts_with_chars(&ls[i - 1], p)
        invariant
            i <= n == ls@.len(),
            lv == views(ls@),
            p@ == badge_start(),
            forall|j: int| i <= j < n ==> !is_badge_line()(#[trigger] lv[j]),
        decreases i,
    {
        assert(lv[i - 1] == ls@[i - 1]@);
        i = i - 1;
    }
    if i > 0 {
        assert(lv[i - 1] == ls@[i - 1]@);
    }
    proof {
        lemma_last_with_at(lv, is_badge_line(), i as int);
    }
    if i == 0 {
        None
    } else {
        Some(i - 1)
    }
}

/// Index of the first `## License` line (or the number of lines).
fn first_license_line(ls: &Vec<Vec<char>>, p: &Vec<char>) -> (r: usize)
    requires
        p@ == license_heading(),
    ensures
        r == count_leading(views(ls@), not_license_line()),
        r <= ls@.len(),
{
    let ghost lv = views(ls@);
    let n = ls.len();
    let mut i: usize = 0;
    while i < n && !starts_with_chars(&ls[i], p)
        invariant
            i <= n == ls@.len(),
            lv == views(ls@),
            p@ == license_heading(),
            forall|j: int| 0 <= j < i ==> not_license_line()(#[trigger] lv[j]),
        decreases n - i,
    {
        assert(lv[i as int] == ls@[i as int]@);
        i = i + 1;
    }
    if i < n {
        assert(lv[i as int] == ls@[i as int]@);
    }
    proof {
        lemma_count_leading_at(lv, not_license_line(), i as int);
    }
    i
}

/// The non-empty lines of `ls[from..to]`, joined with `'\n'`.
fn joined_body(ls: &Vec<Vec<char>>, from: usize, to: usize) -> (r: Vec<char>)
    requires
        from <= to <= ls@.len(),
    ensures
        r@ == join_lines(nonempty_lines(views(ls@).subrange(from as int, to as int))),
{
    let ghost lv = views(ls@);
    let mut r: Vec<char> = Vec::new();
    let mut any = false;
    let mut j = from;
    assert(lv.subrange(from as int, from as int) =~= Seq::<Seq<char>>::empty());
    while j < to
        invariant
            from <= j <= to <= ls@.len(),
            lv == views(ls@),
            any == (nonempty_lines(lv.subrange(from as int, j as int)).len() > 0),
            r@ == join_lines(nonempty_lines(lv.subrange(from as int, j as int))),
        decreases to - j,
    {
        let ghost sub = lv.subrange(from as int, j + 1);
        assert(sub.drop_last() =~= lv.subrange(from as int, j as int));
        assert(sub.last() == ls@[j as int]@);
        if ls[j].len() > 0 {
            if any {
                r.push('\n');
            }
            let line = &ls[j];
            let m = line.len();
            let mut k: usize = 0;
            let ghost before = r@;
            while k < m
                invariant
                    m == line@.len(),
                    k <= m,
                    r@ == before + line@.take(k as int),
                decreases m - k,
            {
                r.push(line[k]);
                k = k + 1;
                assert(r@ =~= before + line@.take(k as int));
            }
            assert(line@.take(m as int) =~= line@);
            proof {
                let prev = nonempty_lines(lv.subrange(from as int, j as int));
                let next = prev.push(line@);
                assert(nonempty_lines(sub) == next);
                assert(next.drop_last() =~= prev);
                if !any {
                    assert(prev.len() == 0);
                    assert(r@ =~= join_lines(next));
                } else {
                    assert(r@ =~= join_lines(next));
                }
            }
            any = true;
        }
        j = j + 1;
    }
    r
}

/// Whether the README is the generated template with no custom body: the
/// region between the last badge line (a line starting with `[![`) and the
/// `## License` heading holds only empty lines and the description.
pub fn is_default_readme(content: &str, description: Option<&str>) -> (r: bool)
    ensures
        r == is_default_text(content@, opt_view(description)),
{
    let text = chars_of(content);
    let ls = lines_of(&text);
    let badge = chars_of("[![");
    let license = chars_of("## License");
    let last_badge = last_line_starting_with(&ls, &badge);
    let lic_start = first_license_line(&ls, &license);
    let badge_end = match last_badge {
        None => return false,
        Some(k) => k,
    };
    if lic_start >= ls.len() || badge_end >= lic_start {
        return false;
    }
    let body = joined_body(&ls, badge_end + 1, lic_start);
    let tb = trim_chars(&body);
    if tb.len() == 0 {
        return true;
    }
    match description {
        Some(desc) => {
            let d = chars_of(desc);
            let td = trim_chars(&d);
            chars_eq(&tb, &td)
        },
        None => false,
    }
}

// ---------------------------------------------------------------------------
// The README check
// ---------------------------------------------------------------------------

/// README.md already exists (and `--force` was not given).
#[derive(Debug)]
pub struct ReadmeExistsError {
    pub src: SourceText,
    pub span: Span,
    pub crate_name: String,
    pub existing_contents: String,
}

/// README.md is missing.
#[derive(Debug)]
pub struct ReadmeMissingError {
    pub crate_name: String,
}

/// README.md is missing the crates.io badge.
#[derive(Debug)]
pub struct MissingCratesBadge {
    pub src: SourceText,
    pub span: Span,
    pub crate_name: String,
}

/// README.md is missing the docs.rs badge.
#[derive(Debug)]
pub struct MissingDocsBadge {
    pub src: SourceText,
    pub span: Span,
    pub crate_name: String,
}

/// README.md is missing the license badge.
#[derive(Debug)]
pub struct MissingLicenseBadge {
    pub src: SourceText,
    pub span: Span,
    pub crate_name: String,
}

/// README.md is missing the `## License` section.
#[derive(Debug)]
pub struct MissingLicenseSection {
    pub src: SourceText,
    pub span: Span,
    pub crate_name: String,
}

/// README.md is missing the CI (GitHub Actions) badge.
#[derive(Debug)]
pub struct MissingGithubBadge {
    pub src: SourceText,
    pub span: Span,
    pub crate_name: String,
}

/// README.md is the default template with no custom content.
#[derive(Debug)]
pub struct DefaultReadme {
    pub src: SourceText,
    pub span: Span,
    pub crate_name: String,
}

/// The kinds of README findings.
#[derive(Clone, Copy, Debug, PartialEq, Eq, Structural)]
pub enum ReadmeIssue {
    Missing,
    CratesBadge,
    DocsBadge,
    CiBadge,
    LicenseBadge,
    LicenseSection,
    DefaultReadme,
}

/// A finding of the README check.
#[derive(Debug)]
pub enum ReadmeDiagnostic {
    Missing(ReadmeMissingError),
    CratesBadge(MissingCratesBadge),
    DocsBadge(MissingDocsBadge),
    CiBadge(MissingGithubBadge),
    LicenseBadge(MissingLicenseBadge),
    LicenseSection(MissingLicenseSection),
    DefaultReadme(DefaultReadme),
}

impl ReadmeDiagnostic {
    /// The kind of this finding.
    pub open spec fn issue(&self) -> ReadmeIssue {
        match self {
            ReadmeDiagnostic::Missing(_) => ReadmeIssue::Missing,
            ReadmeDiagnostic::CratesBadge(_) => ReadmeIssue::CratesBadge,
            ReadmeDiagnostic::DocsBadge(_) => ReadmeIssue::DocsBadge,
            ReadmeDiagnostic::CiBadge(_) => ReadmeIssue::CiBadge,
            ReadmeDiagnostic::LicenseBadge(_) => ReadmeIssue::LicenseBadge,
            ReadmeDiagnostic::LicenseSection(_) => ReadmeIssue::LicenseSection,
            ReadmeDiagnostic::DefaultReadme(_) => ReadmeIssue::DefaultReadme,
        }
    }

    /// The crate the finding is about.
    pub open spec fn crate_name_view(&self) -> Seq<char> {
        match self {
            ReadmeDiagnostic::Missing(d) => d.crate_name@,
            ReadmeDiagnostic::CratesBadge(d) => d.crate_name@,
            ReadmeDiagnostic::DocsBadge(d) => d.crate_name@,
            ReadmeDiagnostic::CiBadge(d) => d.crate_name@,
            ReadmeDiagnostic::LicenseBadge(d) => d.crate_name@,
            ReadmeDiagnostic::LicenseSection(d) => d.crate_name@,
            ReadmeDiagnostic::DefaultReadme(d) => d.crate_name@,
        }
    }

    /// The README the finding points into: its name, text and the span.
    pub open spec fn location(&self) -> Option<(Seq<char>, Seq<char>, Span)> {
        match self {
            ReadmeDiagnostic::Missing(_) => None,
            ReadmeDiagnostic::CratesBadge(d) => Some((d.src.name@, d.src.text@, d.span)),
            ReadmeDiagnostic::DocsBadge(d) => Some((d.src.name@, d.src.text@, d.span)),
            ReadmeDiagnostic::CiBadge(d) => Some((d.src.name@, d.src.text@, d.span)),
            ReadmeDiagnostic::LicenseBadge(d) => Some((d.src.name@, d.src.text@, d.span)),
            ReadmeDiagnostic::LicenseSection(d) => Some((d.src.name@, d.src.text@, d.span)),
            ReadmeDiagnostic::DefaultReadme(d) => Some((d.src.name@, d.src.text@, d.span)),
        }
    }
}

/// Marker of the crates.io badge.
pub open spec fn crates_marker() -> Seq<char> {
    "img.shields.io/crates/v/"@
}

/// Marker of the docs.rs badge.
pub open spec fn docs_marker() -> Seq<char> {
    "docs.rs/"@
}

/// Marker of the CI badge: the GitHub Actions workflow path.
pub open spec fn ci_marker() -> Seq<char> {
    "/actions/workflows/"@
}

/// Marker of the license badge.
pub open spec fn license_badge_marker() -> Seq<char> {
    "img.shields.io/crates/l/"@
}

/// `seq![i]` when `cond` holds, else nothing.
pub open spec fn issue_if(cond: bool, i: ReadmeIssue) -> Seq<ReadmeIssue> {
    if cond {
        seq![i]
    } else {
        Seq::empty()
    }
}

/// The findings for an existing README, in the order they are reported.
pub open spec fn readme_issues(text: Seq<char>, description: Option<Seq<char>>) -> Seq<ReadmeIssue> {
    issue_if(!contains(text, crates_marker()), ReadmeIssue::CratesBadge) + issue_if(
        !contains(text, docs_marker()),
        ReadmeIssue::DocsBadge,
    ) + issue_if(!contains(text, ci_marker()), ReadmeIssue::CiBadge) + issue_if(
        !contains(text, license_badge_marker()),
        ReadmeIssue::LicenseBadge,
    ) + issue_if(!contains(text, license_heading()), ReadmeIssue::LicenseSection) + issue_if(
        is_default_text(text, description),
        ReadmeIssue::DefaultReadme,
    )
}

pub open spec fn nonempty_line() -> spec_fn(Seq<char>) -> bool {
    |l: Seq<char>| l.len() > 0
}

/// The span of the last non-empty line, or `(0, 1)` when every line is empty.
pub open spec fn last_nonempty_line_span(text: Seq<char>) -> (nat, nat) {
    let ls = lines(text);
    let k = last_with(ls, nonempty_line());
    if k < 0 {
        (0, 1)
    } else {
        (line_offset(ls, k), byte_len(ls[k]))
    }
}

/// The span a finding of the given kind points at.
pub open spec fn issue_span(text: Seq<char>, i: ReadmeIssue) -> (nat, nat) {
    if i == ReadmeIssue::LicenseSection {
        last_nonempty_line_span(text)
    } else {
        (0, first_line_width(lines(text)))
    }
}

/// The span of the last non-empty line of `content`.
pub fn last_line_span(content: &str) -> (r: Span)
    requires
        byte_len(content@) <= usize::MAX,
    ensures
        (r.offset as nat, r.len as nat) == last_nonempty_line_span(content@),
{
    let text = chars_of(content);
    let ls = lines_of(&text);
    let ghost lv = views(ls@);
    let n = ls.len();
    let mut last_offset: usize = 0;
    let mut last_len: usize = 1;
    let mut offset: usize = 0;
    let mut i: usize = 0;
    let mut found: Option<usize> = None;
    while i < n
        invariant
            i <= n == ls@.len(),
            lv == views(ls@),
            lv == lines(text@),
            text@ == content@,
            byte_len(text@) <= usize::MAX,
            i < n ==> offset == line_offset(lv, i as int),
            match found {
                Some(k) => k < i && last_with(lv.take(i as int), nonempty_line()) == k
                    && last_offset == line_offset(lv, k as int) && last_len == byte_len(lv[k as int]),
                None => last_with(lv.take(i as int), nonempty_line()) == -1 && last_offset == 0
                    && last_len == 1,
            },
        decreases n - i,
    {
        proof {
            lemma_lines_within(text@, i as int);
            if i + 1 < n {
                lemma_lines_within(text@, i + 1);
                lemma_line_offset_mono(lv, i + 1, i + 1);
            }
            assert(lv[i as int] == ls@[i as int]@);
            assert(lv.take(i + 1).drop_last() =~= lv.take(i as int));
            assert(lv.take(i + 1).last() == lv[i as int]);
        }
        let w = byte_len_of(&ls[i]);
        if ls[i].len() > 0 {
            last_offset = offset;
            last_len = w;
            found = Some(i);
        }
        if i + 1 < n {
            offset = offset + w + 1;
        } else {
            offset = 0;
        }
        i = i + 1;
        proof {
            if i < n {
                assert(offset == line_offset(lv, i as int));
            }
        }
    }
    assert(lv.take(n as int) =~= lv);
    Span { offset: last_offset, len: last_len }
}

/// A finding about `text` carries the crate's name, the README's name and
/// text, and the span that its kind points at.
pub open spec fn diagnostic_fits(
    d: ReadmeDiagnostic,
    crate_name: Seq<char>,
    name: Seq<char>,
    text: Seq<char>,
) -> bool {
    &&& d.crate_name_view() == crate_name
    &&& d.location() matches Some((n, t, span)) && n == name && t == text && (
    span.offset as nat, span.len as nat) == issue_span(text, d.issue())
}

pub open spec fn issue_of() -> spec_fn(ReadmeDiagnostic) -> ReadmeIssue {
    |d: ReadmeDiagnostic| d.issue()
}

/// All findings in `r` fit the README and crate.
pub open spec fn all_fit(
    r: Seq<ReadmeDiagnostic>,
    crate_name: Seq<char>,
    name: Seq<char>,
    text: Seq<char>,
) -> bool {
    forall|i: int| 0 <= i < r.len() ==> diagnostic_fits(#[trigger] r[i], crate_name, name, text)
}

/// Reports `issue` when `present` holds.
fn report_if(
    r: &mut Vec<ReadmeDiagnostic>,
    present: bool,
    issue: ReadmeIssue,
    src: &SourceText,
    span: Span,
    crate_name: &str,
)
    requires
        issue != ReadmeIssue::Missing,
        (span.offset as nat, span.len as nat) == issue_span(src.text@, issue),
        all_fit(old(r)@, crate_name@, src.name@, src.text@),
    ensures
        final(r)@.map_values(issue_of()) == old(r)@.map_values(issue_of()) + issue_if(
            present,
            issue,
        ),
        all_fit(final(r)@, crate_name@, src.name@, src.text@),
{
    if !present {
        assert(r@.map_values(issue_of()) =~= old(r)@.map_values(issue_of()) + issue_if(
            present,
            issue,
        ));
        return ;
    }
    let s = src.duplicate();
    let c = owned(crate_name);
    let d = match issue {
        ReadmeIssue::CratesBadge => ReadmeDiagnostic::CratesBadge(
            MissingCratesBadge { src: s, span, crate_name: c },
        ),
        ReadmeIssue::DocsBadge => ReadmeDiagnostic::DocsBadge(
            MissingDocsBadge { src: s, span, crate_name: c },
        ),
        ReadmeIssue::CiBadge => ReadmeDiagnostic::CiBadge(
            MissingGithubBadge { src: s, span, crate_name: c },
        ),
        ReadmeIssue::LicenseBadge => ReadmeDiagnostic::LicenseBadge(
            MissingLicenseBadge { src: s, span, crate_name: c },
        ),
        ReadmeIssue::LicenseSection => ReadmeDiagnostic::LicenseSection(
            MissingLicenseSection { src: s, span, crate_name: c },
        ),
        _ => ReadmeDiagnostic::DefaultReadme(DefaultReadme { src: s, span, crate_name: c }),
    };
    assert(d.issue() == issue);
    assert(diagnostic_fits(d, crate_name@, src.name@, src.text@));
    r.push(d);
    assert(r@.map_values(issue_of()) =~= old(r)@.map_values(issue_of()) + issue_if(
        present,
        issue,
    ));
    assert forall|i: int| 0 <= i < r@.len() implies diagnostic_fits(
        #[trigger] r@[i],
        crate_name@,
        src.name@,
        src.text@,
    ) by {
        if i < old(r)@.len() {
            assert(r@[i] == old(r)@[i]);
        }
    }
}

/// Checks that the README exists and is well-formed: it has the crates.io,
/// docs.rs, CI and license badges and a `## License` section, and is not
/// the bare generated template.
pub fn check_readme(readme: &FileRead, crate_name: &str, description: Option<&str>) -> (r: Vec<
    ReadmeDiagnostic,
>)
    requires
        readme matches FileRead::Read(src) ==> byte_len(src.text@) <= usize::MAX,
    ensures
        readme is Missing ==> r@.len() == 1,
        readme is Missing ==> (r@[0] matches ReadmeDiagnostic::Missing(e)
            && e.crate_name@ == crate_name@),
        readme is Unreadable ==> r@.len() == 0,
        readme matches FileRead::Read(src) ==> {
            &&& r@.map_values(issue_of()) == readme_issues(src.text@, opt_view(description))
            &&& forall|i: int|
                0 <= i < r@.len() ==> diagnostic_fits(
                    #[trigger] r@[i],
                    crate_name@,
                    src.name@,
                    src.text@,
                )
        },
{
    let mut r: Vec<ReadmeDiagnostic> = Vec::new();
    let src = match readme {
        FileRead::Missing => {
            r.push(ReadmeDiagnostic::Missing(ReadmeMissingError { crate_name: owned(crate_name) }));
            return r;
        },
        FileRead::Unreadable => {
            return r;
        },
        FileRead::Read(src) => src,
    };
    let text = chars_of(src.text.as_str());
    let ls = lines_of(&text);
    let ghost lv = views(ls@);
    let mut first_len: usize = 1;
    if ls.len() > 0 {
        proof {
            lemma_lines_within(text@, 0);
        }
        assert(lv[0] == ls@[0]@);
        let w = byte_len_of(&ls[0]);
        if w > 1 {
            first_len = w;
        }
    }
    let first = Span { offset: 0, len: first_len };
    let ghost t = src.text@;
    let ghost d = opt_view(description);

    let m = chars_of("img.shields.io/crates/v/");
    let c1 = contains_chars(&text, &m);
    report_if(&mut r, !c1, ReadmeIssue::CratesBadge, src, first, crate_name);
    let m = chars_of("docs.rs/");
    let c2 = contains_chars(&text, &m);
    report_if(&mut r, !c2, ReadmeIssue::DocsBadge, src, first, crate_name);
    let m = chars_of("/actions/workflows/");
    let c3 = contains_chars(&text, &m);
    report_if(&mut r, !c3, ReadmeIssue::CiBadge, src, first, crate_name);
    let m = chars_of("img.shields.io/crates/l/");
    let c4 = contains_chars(&text, &m);
    report_if(&mut r, !c4, ReadmeIssue::LicenseBadge, src, first, crate_name);
    let m = chars_of("## License");
    let c5 = contains_chars(&text, &m);
    let last = last_line_span(src.text.as_str());
    report_if(&mut r, !c5, ReadmeIssue::LicenseSection, src, last, crate_name);
    let dflt = is_default_readme(src.text.as_str(), description);
    report_if(&mut r, dflt, ReadmeIssue::DefaultReadme, src, first, crate_name);
    assert(r@.map_values(issue_of()) =~= readme_issues(t, d));
    r
}

/// Writes nothing over an existing README unless `force` is set: with an
/// existing README (`existing`, its name and contents) and no `force` the
/// answer is the "README exists" error; otherwise it is the generated README.
pub fn fix_readme(existing: Option<&SourceText>, params: &ReadmeParams<'_>, force: bool) -> (r:
    Result<String, ReadmeExistsError>)
    ensures
        existing matches Some(src) ==> (!force ==> {
            &&& r matches Err(e)
            &&& e.src.name@ == src.name@ && e.src.text@ == src.text@
            &&& e.existing_contents@ == src.text@
            &&& e.crate_name@ == params.crate_name@
            &&& e.span.offset == 0
            &&& e.span.len == (if src.text@.len() > 0 { 1nat } else { 0nat })
        }),
        (existing is None || force) ==> (r matches Ok(t) && t@ == params_readme(*params)),
{
    if let Some(src) = existing {
        if !force {
            let len: usize = if src.text.as_str().is_empty() { 0 } else { 1 };
            return Err(
                ReadmeExistsError {
                    src: src.duplicate(),
                    span: Span { offset: 0, len },
                    crate_name: owned(params.crate_name),
                    existing_contents: src.text.clone(),
                },
            );
        }
    }
    Ok(generate_readme(params))
}

/// With every badge and the license section present, the only README finding
/// that can remain is the "default template" one.
pub proof fn lemma_only_default_issue(t: Seq<char>, d: Option<Seq<char>>)
    requires
        contains(t, crates_marker()),
        contains(t, docs_marker()),
        contains(t, ci_marker()),
        contains(t, license_badge_marker()),
        contains(t, license_heading()),
    ensures
        readme_issues(t, d) == issue_if(is_default_text(t, d), ReadmeIssue::DefaultReadme),
{
    assert(readme_issues(t, d) =~= issue_if(is_default_text(t, d), ReadmeIssue::DefaultReadme));
}

proof fn lemma_generated_has_crates_badge(t: Seq<char>, name: Seq<char>, h: Seq<char>, rest: Seq<char>)
    requires
        t == h + crates_badge_part(name) + rest,
    ensures
        contains(t, crates_marker()),
{
    let a = h + "[![Crates.io](https://"@;
    let b = name + ".svg)](https://crates.io/crates/"@ + name + ")\n"@ + rest;
    lemma_contains_middle(a, crates_marker(), b);
    assert(t =~= a + crates_marker() + b);
}

proof fn lemma_generated_has_docs_badge(t: Seq<char>, name: Seq<char>, h: Seq<char>, rest: Seq<char>)
    requires
        t == h + docs_badge_part(name) + rest,
    ensures
        contains(t, docs_marker()),
{
    let a = h + "[![docs.rs](https://"@;
    let b = name + "/badge.svg)](https://docs.rs/"@ + name + ")\n"@ + rest;
    lemma_contains_middle(a, docs_marker(), b);
    assert(t =~= a + docs_marker() + b);
}

proof fn lemma_generated_has_ci_badge(
    t: Seq<char>,
    repository: Seq<char>,
    h: Seq<char>,
    rest: Seq<char>,
)
    requires
        t == h + ci_badge_part(repository) + rest,
    ensures
        contains(t, ci_marker()),
{
    let a = h + "[![CI](https://github.com/"@ + trim_prefix_all(repository, github_prefix());
    let b = "ci.yml/badge.svg)]("@ + repository + "/actions/workflows/ci.yml)\n"@ + rest;
    lemma_contains_middle(a, ci_marker(), b);
    assert(t =~= a + ci_marker() + b);
}

proof fn lemma_generated_has_license_badge(
    t: Seq<char>,
    name: Seq<char>,
    repository: Seq<char>,
    h: Seq<char>,
    rest: Seq<char>,
)
    requires
        t == h + license_badge_part(name, repository) + rest,
    ensures
        contains(t, license_badge_marker()),
{
    let a = h + "[![License](https://"@;
    let b = name + ".svg)]("@ + repository + "/blob/master/LICENSE)\n"@ + rest;
    lemma_contains_middle(a, license_badge_marker(), b);
    assert(t =~= a + license_badge_marker() + b);
}

proof fn lemma_generated_has_license_section(t: Seq<char>, license: Seq<char>, h: Seq<char>)
    requires
        t == h + license_part(license),
    ensures
        contains(t, license_heading()),
{
    let a = h + "\n"@;
    let b = "\n\n"@ + license + "\n"@;
    lemma_contains_middle(a, license_heading(), b);
    assert(t =~= a + license_heading() + b);
}

/// A generated README has every badge and the license section: of the README
/// findings, only the "default template" one can apply to it.
pub proof fn law_generated_readme_has_badges(
    name: Seq<char>,
    description: Option<Seq<char>>,
    body: Option<Seq<char>>,
    repository: Seq<char>,
    license: Seq<char>,
    check_description: Option<Seq<char>>,
)
    ensures
        contains(readme_text(name, description, body, repository, license), crates_marker()),
        contains(readme_text(name, description, body, repository, license), docs_marker()),
        contains(readme_text(name, description, body, repository, license), ci_marker()),
        contains(
            readme_text(name, description, body, repository, license),
            license_badge_marker(),
        ),
        contains(readme_text(name, description, body, repository, license), license_heading()),
        readme_issues(readme_text(name, description, body, repository, license), check_description)
            == issue_if(
            is_default_text(
                readme_text(name, description, body, repository, license),
                check_description,
            ),
            ReadmeIssue::DefaultReadme,
        ),
{
    let t = readme_text(name, description, body, repository, license);
    let h = heading_part(name);
    let c = crates_badge_part(name);
    let dc = docs_badge_part(name);
    let g = ci_badge_part(repository);
    let l = license_badge_part(name, repository);
    let p = paragraph(description) + paragraph(body);
    let lp = license_part(license);
    assert(contains(t, crates_marker())) by {
        assert(t =~= h + c + (dc + g + l + p + lp));
        lemma_generated_has_crates_badge(t, name, h, dc + g + l + p + lp);
    }
    assert(contains(t, docs_marker())) by {
        assert(t =~= (h + c) + dc + (g + l + p + lp));
        lemma_generated_has_docs_badge(t, name, h + c, g + l + p + lp);
    }
    assert(contains(t, ci_marker())) by {
        assert(t =~= (h + c + dc) + g + (l + p + lp));
        lemma_generated_has_ci_badge(t, repository, h + c + dc, l + p + lp);
    }
    assert(contains(t, license_badge_marker())) by {
        assert(t =~= (h + c + dc + g) + l + (p + lp));
        lemma_generated_has_license_badge(t, name, repository, h + c + dc + g, p + lp);
    }
    assert(contains(t, license_heading())) by {
        assert(t =~= (h + c + dc + g + l + p) + lp);
        lemma_generated_has_license_section(t, license, h + c + dc + g + l + p);
    }
    lemma_only_default_issue(t, check_description);
}

// ---------------------------------------------------------------------------
// The generated README, line by line
// ---------------------------------------------------------------------------

/// The crates.io badge line without its line break.
pub open spec fn crates_badge_line(name: Seq<char>) -> Seq<char> {
    "[![Crates.io](https://"@ + "img.shields.io/crates/v/"@ + name
        + ".svg)](https://crates.io/crates/"@ + name + ")"@
}

/// The docs.rs badge line without its line break.
pub open spec fn docs_badge_line(name: Seq<char>) -> Seq<char> {
    "[![docs.rs](https://"@ + "docs.rs/"@ + name + "/badge.svg)](https://docs.rs/"@ + name + ")"@
}

/// The CI badge line without its line break.
pub open spec fn ci_badge_line(repository: Seq<char>) -> Seq<char> {
    "[![CI](https://github.com/"@ + trim_prefix_all(repository, github_prefix())
        + "/actions/workflows/"@ + "ci.yml/badge.svg)]("@ + repository
        + "/actions/workflows/ci.yml)"@
}

/// The license badge line without its line break.
pub open spec fn license_badge_line(name: Seq<char>, repository: Seq<char>) -> Seq<char> {
    "[![License](https://"@ + "img.shields.io/crates/l/"@ + name + ".svg)]("@ + repository
        + "/blob/master/LICENSE)"@
}

/// The lines of a text whose last line ends where the text ends: the pieces
/// between its line breaks, each without a final `'\r'`.
pub open spec fn text_lines(x: Seq<char>) -> Seq<Seq<char>> {
    split_on(x, '\n').map_values(|l: Seq<char>| strip_cr(l))
}

/// No line of `x` starts with `p`.
pub open spec fn no_line_starts_with(x: Seq<char>, p: Seq<char>) -> bool {
    forall|i: int| 0 <= i < text_lines(x).len() ==> !starts_with(#[trigger] text_lines(x)[i], p)
}

/// The lines of an optional paragraph: an empty line and the pieces of the
/// text between its line breaks.
pub open spec fn paragraph_lines(o: Option<Seq<char>>) -> Seq<Seq<char>> {
    match o {
        Some(t) => seq![Seq::empty()] + split_on(t, '\n'),
        None => Seq::empty(),
    }
}

/// The lines of a generated README, each written without its line break.
pub open spec fn template_lines(
    name: Seq<char>,
    description: Option<Seq<char>>,
    body: Option<Seq<char>>,
    repository: Seq<char>,
    license: Seq<char>,
) -> Seq<Seq<char>> {
    seq![
        "# "@ + name,
        Seq::empty(),
        crates_badge_line(name),
        docs_badge_line(name),
        ci_badge_line(repository),
        license_badge_line(name, repository),
    ] + paragraph_lines(description) + paragraph_lines(body) + seq![
        Seq::empty(),
        license_heading(),
        Seq::empty(),
    ] + split_on(license, '\n')
}

proof fn lemma_unlines_concat(a: Seq<Seq<char>>, b: Seq<Seq<char>>)
    ensures
        unlines(a + b) == unlines(a) + unlines(b),
    decreases b.len(),
{
    if b.len() == 0 {
        assert(a + b =~= a);
        assert(unlines(a) + unlines(b) =~= unlines(a));
    } else {
        lemma_unlines_concat(a, b.drop_last());
        assert((a + b).drop_last() =~= a + b.drop_last());
        assert((a + b).last() == b.last());
        assert(unlines(a + b) =~= unlines(a) + unlines(b));
    }
}

proof fn lemma_unlines_one(x: Seq<char>)
    ensures
        unlines(seq![x]) == x + seq!['\n'],
{
    assert(seq![x].drop_last() =~= Seq::<Seq<char>>::empty());
    assert(unlines(Seq::<Seq<char>>::empty()) == Seq::<char>::empty());
    assert(seq![x].last() == x);
    assert(unlines(seq![x]) == unlines(seq![x].drop_last()) + seq![x].last() + seq!['\n']);
    assert(unlines(seq![x]) =~= x + seq!['\n']);
}

proof fn lemma_unlines_two(x: Seq<char>, y: Seq<char>)
    ensures
        unlines(seq![x, y]) == x + seq!['\n'] + y + seq!['\n'],
{
    lemma_unlines_concat(seq![x], seq![y]);
    assert(seq![x] + seq![y] =~= seq![x, y]);
    lemma_unlines_one(x);
    lemma_unlines_one(y);
    assert(unlines(seq![x, y]) =~= x + seq!['\n'] + y + seq!['\n']);
}

proof fn lemma_paragraph_lines(o: Option<Seq<char>>)
    ensures
        unlines(paragraph_lines(o)) == paragraph(o),
{
    match o {
        Some(t) => {
            lemma_unlines_one(Seq::empty());
            lemma_split_unlines(t);
            lemma_unlines_concat(seq![Seq::<char>::empty()], split_on(t, '\n'));
            assert(paragraph(o) =~= Seq::<char>::empty() + seq!['\n'] + t + seq!['\n']);
        },
        None => {
            assert(unlines(paragraph_lines(o)) =~= Seq::<char>::empty());
        },
    }
}

/// The head of the template: the heading, an empty line and the badge lines.
proof fn lemma_head_text(name: Seq<char>, repository: Seq<char>)
    ensures
        unlines(
            seq![
                "# "@ + name,
                Seq::<char>::empty(),
                crates_badge_line(name),
                docs_badge_line(name),
                ci_badge_line(repository),
                license_badge_line(name, repository),
            ],
        ) == heading_part(name) + crates_badge_part(name) + docs_badge_part(name)
            + ci_badge_part(repository) + license_badge_part(name, repository),
{
    reveal_strlit("\n\n");
    reveal_strlit(")\n");
    reveal_strlit(")");
    reveal_strlit("/blob/master/LICENSE)\n");
    reveal_strlit("/blob/master/LICENSE)");
    reveal_strlit("/actions/workflows/ci.yml)\n");
    reveal_strlit("/actions/workflows/ci.yml)");
    let e = Seq::<char>::empty();
    let nl = seq!['\n'];
    let h = "# "@ + name;
    let c = crates_badge_line(name);
    let dc = docs_badge_line(name);
    let g = ci_badge_line(repository);
    let lb = license_badge_line(name, repository);
    let head = seq![h, e, c, dc, g, lb];
    lemma_unlines_concat(seq![h, e, c], seq![dc, g, lb]);
    lemma_unlines_concat(seq![h, e], seq![c]);
    lemma_unlines_concat(seq![dc, g], seq![lb]);
    assert(seq![h, e, c] + seq![dc, g, lb] =~= head);
    assert(seq![h, e] + seq![c] =~= seq![h, e, c]);
    assert(seq![dc, g] + seq![lb] =~= seq![dc, g, lb]);
    lemma_unlines_two(h, e);
    lemma_unlines_one(c);
    lemma_unlines_two(dc, g);
    lemma_unlines_one(lb);
    assert(heading_part(name) =~= h + nl + e + nl);
    assert(crates_badge_part(name) =~= c + nl);
    assert(docs_badge_part(name) =~= dc + nl);
    assert(ci_badge_part(repository) =~= g + nl);
    assert(license_badge_part(name, repository) =~= lb + nl);
    assert(unlines(head) =~= heading_part(name) + crates_badge_part(name) + docs_badge_part(name)
        + ci_badge_part(repository) + license_badge_part(name, repository));
}

/// The license section of the template.
proof fn lemma_license_text(license: Seq<char>)
    ensures
        unlines(seq![Seq::<char>::empty(), license_heading(), Seq::<char>::empty()])
            + unlines(split_on(license, '\n')) == license_part(license),
{
    reveal_strlit("\n\n");
    reveal_strlit("\n");
    let e = Seq::<char>::empty();
    let nl = seq!['\n'];
    let fixed = seq![e, license_heading(), e];
    lemma_unlines_concat(seq![e, license_heading()], seq![e]);
    assert(seq![e, license_heading()] + seq![e] =~= fixed);
    lemma_unlines_two(e, license_heading());
    lemma_unlines_one(e);
    lemma_split_unlines(license);
    assert(unlines(fixed) + unlines(split_on(license, '\n')) =~= license_part(license));
}

/// A generated README is its template lines, each ended by `'\n'`.
pub proof fn lemma_template_text(
    name: Seq<char>,
    description: Option<Seq<char>>,
    body: Option<Seq<char>>,
    repository: Seq<char>,
    license: Seq<char>,
)
    ensures
        readme_text(name, description, body, repository, license) == unlines(
            template_lines(name, description, body, repository, license),
        ),
{
    let e = Seq::<char>::empty();
    let head = seq![
        "# "@ + name,
        e,
        crates_badge_line(name),
        docs_badge_line(name),
        ci_badge_line(repository),
        license_badge_line(name, repository),
    ];
    let pd = paragraph_lines(description);
    let pb = paragraph_lines(body);
    let lsp = split_on(license, '\n');
    let fixed = seq![e, license_heading(), e];
    let t = template_lines(name, description, body, repository, license);
    assert(t == head + pd + pb + fixed + lsp);
    lemma_unlines_concat(head + pd + pb + fixed, lsp);
    lemma_unlines_concat(head + pd + pb, fixed);
    lemma_unlines_concat(head + pd, pb);
    lemma_unlines_concat(head, pd);
    lemma_head_text(name, repository);
    lemma_license_text(license);
    lemma_paragraph_lines(description);
    lemma_paragraph_lines(body);
    assert(readme_text(name, description, body, repository, license) =~= unlines(t));
}

/// The template lines hold no line break when the inputs hold none.
proof fn lemma_template_no_newline(
    name: Seq<char>,
    description: Option<Seq<char>>,
    body: Option<Seq<char>>,
    repository: Seq<char>,
    license: Seq<char>,
)
    requires
        no_newline(name),
        no_newline(repository),
    ensures
        forall|i: int|
            0 <= i < template_lines(name, description, body, repository, license).len()
                ==> no_newline(
                #[trigger] template_lines(name, description, body, repository, license)[i],
            ),
{
    reveal_strlit("# ");
    reveal_strlit("[![Crates.io](https://");
    reveal_strlit("img.shields.io/crates/v/");
    reveal_strlit(".svg)](https://crates.io/crates/");
    reveal_strlit(")");
    reveal_strlit("[![docs.rs](https://");
    reveal_strlit("docs.rs/");
    reveal_strlit("/badge.svg)](https://docs.rs/");
    reveal_strlit("[![CI](https://github.com/");
    reveal_strlit("/actions/workflows/");
    reveal_strlit("ci.yml/badge.svg)](");
    reveal_strlit("/actions/workflows/ci.yml)");
    reveal_strlit("[![License](https://");
    reveal_strlit("img.shields.io/crates/l/");
    reveal_strlit(".svg)](");
    reveal_strlit("/blob/master/LICENSE)");
    reveal_strlit("## License");
    let e = Seq::<char>::empty();
    assert(no_newline(e));
    assert(no_newline("# "@));
    assert(no_newline("[![Crates.io](https://"@));
    assert(no_newline("img.shields.io/crates/v/"@));
    assert(no_newline(".svg)](https://crates.io/crates/"@));
    assert(no_newline(")"@));
    assert(no_newline("[![docs.rs](https://"@));
    assert(no_newline("docs.rs/"@));
    assert(no_newline("/badge.svg)](https://docs.rs/"@));
    assert(no_newline("[![CI](https://github.com/"@));
    assert(no_newline("/actions/workflows/"@));
    assert(no_newline("ci.yml/badge.svg)]("@));
    assert(no_newline("/actions/workflows/ci.yml)"@));
    assert(no_newline("[![License](https://"@));
    assert(no_newline("img.shields.io/crates/l/"@));
    assert(no_newline(".svg)]("@));
    assert(no_newline("/blob/master/LICENSE)"@));
    assert(no_newline("## License"@));
    lemma_trim_prefix_all_no_newline(repository, github_prefix());
    let rp = trim_prefix_all(repository, github_prefix());

    lemma_no_newline_concat("# "@, name);

    lemma_no_newline_concat("[![Crates.io](https://"@, "img.shields.io/crates/v/"@);
    lemma_no_newline_concat("[![Crates.io](https://"@ + "img.shields.io/crates/v/"@, name);
    lemma_no_newline_concat(
        "[![Crates.io](https://"@ + "img.shields.io/crates/v/"@ + name,
        ".svg)](https://crates.io/crates/"@,
    );
    lemma_no_newline_concat(
        "[![Crates.io](https://"@ + "img.shields.io/crates/v/"@ + name
            + ".svg)](https://crates.io/crates/"@,
        name,
    );
    lemma_no_newline_concat(
        "[![Crates.io](https://"@ + "img.shields.io/crates/v/"@ + name
            + ".svg)](https://crates.io/crates/"@ + name,
        ")"@,
    );

    lemma_no_newline_concat("[![docs.rs](https://"@, "docs.rs/"@);
    lemma_no_newline_concat("[![docs.rs](https://"@ + "docs.rs/"@, name);
    lemma_no_newline_concat(
        "[![docs.rs](https://"@ + "docs.rs/"@ + name,
        "/badge.svg)](https://docs.rs/"@,
    );
    lemma_no_newline_concat(
        "[![docs.rs](https://"@ + "docs.rs/"@ + name + "/badge.svg)](https://docs.rs/"@,
        name,
    );
    lemma_no_newline_concat(
        "[![docs.rs](https://"@ + "docs.rs/"@ + name + "/badge.svg)](https://docs.rs/"@ + name,
        ")"@,
    );

    lemma_no_newline_concat("[![CI](https://github.com/"@, rp);
    lemma_no_newline_concat("[![CI](https://github.com/"@ + rp, "/actions/workflows/"@);
    lemma_no_newline_concat(
        "[![CI](https://github.com/"@ + rp + "/actions/workflows/"@,
        "ci.yml/badge.svg)]("@,
    );
    lemma_no_newline_concat(
        "[![CI](https://github.com/"@ + rp + "/actions/workflows/"@ + "ci.yml/badge.svg)]("@,
        repository,
    );
    lemma_no_newline_concat(
        "[![CI](https://github.com/"@ + rp + "/actions/workflows/"@ + "ci.yml/badge.svg)]("@
            + repository,
        "/actions/workflows/ci.yml)"@,
    );

    lemma_no_newline_concat("[![License](https://"@, "img.shields.io/crates/l/"@);
    lemma_no_newline_concat("[![License](https://"@ + "img.shields.io/crates/l/"@, name);
    lemma_no_newline_concat(
        "[![License](https://"@ + "img.shields.io/crates/l/"@ + name,
        ".svg)]("@,
    );
    lemma_no_newline_concat(
        "[![License](https://"@ + "img.shields.io/crates/l/"@ + name + ".svg)]("@,
        repository,
    );
    lemma_no_newline_concat(
        "[![License](https://"@ + "img.shields.io/crates/l/"@ + name + ".svg)]("@ + repository,
        "/blob/master/LICENSE)"@,
    );
    let t = template_lines(name, description, body, repository, license);
    let e = Seq::<char>::empty();
    let head = seq![
        "# "@ + name,
        e,
        crates_badge_line(name),
        docs_badge_line(name),
        ci_badge_line(repository),
        license_badge_line(name, repository),
    ];
    let pd = paragraph_lines(description);
    let pb = paragraph_lines(body);
    let fixed = seq![e, license_heading(), e];
    let lsp = split_on(license, '\n');
    lemma_split_unlines(license);
    assert(t == head + pd + pb + fixed + lsp);
    assert forall|i: int| 0 <= i < t.len() implies no_newline(#[trigger] t[i]) by {
        let a = head.len() as int;
        let b = a + pd.len();
        let c = b + pb.len();
        let f = c + 3;
        if i < a {
            assert(t[i] == head[i]);
        } else if i < b {
            assert(t[i] == pd[i - a]);
            if let Some(d) = description {
                lemma_split_unlines(d);
                if i > a {
                    assert(pd[i - a] == split_on(d, '\n')[i - a - 1]);
                }
            }
        } else if i < c {
            assert(t[i] == pb[i - b]);
            if let Some(bd) = body {
                lemma_split_unlines(bd);
                if i > b {
                    assert(pb[i - b] == split_on(bd, '\n')[i - b - 1]);
                }
            }
        } else if i < f {
            assert(t[i] == fixed[i - c]);
        } else {
            assert(t[i] == lsp[i - f]);
        }
    }
}

/// A line made of `a` and then `b`, where `a` starts with `p` and `b` ends
/// with `')'`, starts with `p` and loses nothing to `strip_cr`.
proof fn lemma_badge_line(a: Seq<char>, b: Seq<char>, p: Seq<char>)
    requires
        starts_with(a, p),
        b.len() > 0,
        b.last() == ')',
    ensures
        starts_with(a + b, p),
        strip_cr(a + b) == a + b,
{
    lemma_starts_with_concat(a, b, p);
    assert((a + b).last() == b.last());
}

/// The badge lines of the template start with `[![` and keep their text.
proof fn lemma_template_badges(name: Seq<char>, repository: Seq<char>)
    ensures
        starts_with(crates_badge_line(name), badge_start()),
        starts_with(docs_badge_line(name), badge_start()),
        starts_with(ci_badge_line(repository), badge_start()),
        starts_with(license_badge_line(name, repository), badge_start()),
        strip_cr(crates_badge_line(name)) == crates_badge_line(name),
        strip_cr(docs_badge_line(name)) == docs_badge_line(name),
        strip_cr(ci_badge_line(repository)) == ci_badge_line(repository),
        strip_cr(license_badge_line(name, repository)) == license_badge_line(name, repository),
        !starts_with(crates_badge_line(name), license_heading()),
        !starts_with(docs_badge_line(name), license_heading()),
        !starts_with(ci_badge_line(repository), license_heading()),
        !starts_with(license_badge_line(name, repository), license_heading()),
{
    reveal_strlit("[![");
    reveal_strlit("## License");
    reveal_strlit(")");
    reveal_strlit("/blob/master/LICENSE)");
    reveal_strlit("[![Crates.io](https://");
    reveal_strlit("[![docs.rs](https://");
    reveal_strlit("[![CI](https://github.com/");
    reveal_strlit("/actions/workflows/ci.yml)");
    reveal_strlit("[![License](https://");
    let p = badge_start();
    let rp = trim_prefix_all(repository, github_prefix());

    let a = "[![Crates.io](https://"@;
    assert(a.take(3) =~= p);
    let b = "img.shields.io/crates/v/"@ + name + ".svg)](https://crates.io/crates/"@ + name + ")"@;
    assert(crates_badge_line(name) =~= a + b);
    lemma_badge_line(a, b, p);
    assert((a + b)[0] == '[');

    let a = "[![docs.rs](https://"@;
    assert(a.take(3) =~= p);
    let b = "docs.rs/"@ + name + "/badge.svg)](https://docs.rs/"@ + name + ")"@;
    assert(docs_badge_line(name) =~= a + b);
    lemma_badge_line(a, b, p);
    assert((a + b)[0] == '[');

    let a = "[![CI](https://github.com/"@;
    assert(a.take(3) =~= p);
    let b = rp + "/actions/workflows/"@ + "ci.yml/badge.svg)]("@ + repository
        + "/actions/workflows/ci.yml)"@;
    assert(ci_badge_line(repository) =~= a + b);
    lemma_badge_line(a, b, p);
    assert((a + b)[0] == '[');

    let a = "[![License](https://"@;
    assert(a.take(3) =~= p);
    let b = "img.shields.io/crates/l/"@ + name + ".svg)]("@ + repository
        + "/blob/master/LICENSE)"@;
    assert(license_badge_line(name, repository) =~= a + b);
    lemma_badge_line(a, b, p);
    assert((a + b)[0] == '[');
    assert(license_heading()[0] == '#');
}

/// The other fixed lines of the template.
proof fn lemma_template_fixed_lines(name: Seq<char>)
    ensures
        !starts_with(strip_cr("# "@ + name), license_heading()),
        starts_with(license_heading(), license_heading()),
        strip_cr(license_heading()) == license_heading(),
        !starts_with(license_heading(), badge_start()),
        !starts_with(Seq::<char>::empty(), badge_start()),
        !starts_with(Seq::<char>::empty(), license_heading()),
{
    reveal_strlit("[![");
    reveal_strlit("## License");
    reveal_strlit("# ");
    let h = "# "@ + name;
    if starts_with(strip_cr(h), license_heading()) {
        lemma_starts_with_strip_cr(h, license_heading());
        assert(h[1] == ' ');
        assert(h.take(10)[1] == license_heading()[1]);
    }
    assert(license_heading().take(10) =~= license_heading());
    assert(license_heading()[0] != badge_start()[0]);
    assert(license_heading().take(3)[0] == '#');
}

/// A README generated without a body (as `cargo furnish update` writes it
/// without `--readme`) is reported by the check as the default template,
/// when the crate name, repository and description are single lines, no line
/// of the license text and not the description look like a badge line, and
/// the description does not look like the license heading.
pub proof fn law_generated_readme_without_body_is_default(
    name: Seq<char>,
    description: Option<Seq<char>>,
    repository: Seq<char>,
    license: Seq<char>,
)
    requires
        no_newline(name),
        no_newline(repository),
        no_line_starts_with(license, badge_start()),
        description matches Some(d) ==> (no_newline(d) && !starts_with(d, badge_start())
            && !starts_with(d, license_heading())),
    ensures
        is_default_text(readme_text(name, description, None, repository, license), description),
{
    let text = readme_text(name, description, None, repository, license);
    let t = template_lines(name, description, None, repository, license);
    lemma_template_text(name, description, None, repository, license);
    lemma_template_no_newline(name, description, None, repository, license);
    lemma_lines_unlines(t);
    lemma_template_badges(name, repository);
    lemma_template_fixed_lines(name);
    let ls = lines(text);
    assert(ls == t.map_values(|l: Seq<char>| strip_cr(l)));
    let e = Seq::<char>::empty();
    assert(strip_cr(e) == e);
    let lsp = split_on(license, '\n');
    let head = seq![
        "# "@ + name,
        e,
        crates_badge_line(name),
        docs_badge_line(name),
        ci_badge_line(repository),
        license_badge_line(name, repository),
    ];
    let pd = paragraph_lines(description);
    if let Some(d) = description {
        lemma_split_single(d);
        assert(pd =~= seq![e, d]);
    }
    let fixed = seq![e, license_heading(), e];
    let pre = head + pd + Seq::<Seq<char>>::empty() + fixed;
    assert(t == pre + lsp);
    let lic: int = if description is Some { 9 } else { 7 };
    assert(pre.len() == lic + 2);
    assert(ls.len() == lic + 2 + lsp.len());
    assert forall|j: int| 0 <= j < ls.len() implies ls[j] == strip_cr(t[j]) by {}
    assert forall|j: int| 0 <= j < pre.len() implies t[j] == pre[j] by {}
    assert(ls[5] == license_badge_line(name, repository));
    assert(ls[lic] == license_heading());
    // the last badge line is line 5
    assert forall|j: int| 6 <= j < ls.len() implies !is_badge_line()(#[trigger] ls[j]) by {
        if j >= lic + 2 {
            assert(t[j] == lsp[j - lic - 2]);
            assert(text_lines(license)[j - lic - 2] == strip_cr(lsp[j - lic - 2]));
        } else if j == 7 && description is Some {
            let d = description->0;
            if starts_with(strip_cr(d), badge_start()) {
                lemma_starts_with_strip_cr(d, badge_start());
            }
        }
    }
    lemma_last_with_at(ls, is_badge_line(), 6);
    // the license heading is line `lic`
    assert forall|j: int| 0 <= j < lic implies not_license_line()(#[trigger] ls[j]) by {
        if j == 7 && description is Some {
            let d = description->0;
            if starts_with(strip_cr(d), license_heading()) {
                lemma_starts_with_strip_cr(d, license_heading());
            }
        }
    }
    lemma_count_leading_at(ls, not_license_line(), lic);
    // what lies between them
    let region = ls.subrange(6, lic);
    let none = Seq::<Seq<char>>::empty();
    assert(nonempty_lines(none) == none);
    assert(seq![e].last() == e);
    assert(seq![e].drop_last() =~= none);
    assert(nonempty_lines(seq![e]) == nonempty_lines(none));
    assert(trim(e) =~= e) by {
        let (a, c) = lemma_trim_range(e);
    }
    match description {
        Some(d) => {
            let sd = strip_cr(d);
            assert(region =~= seq![e, sd, e]);
            assert(region.drop_last() =~= seq![e, sd]);
            assert(region.drop_last().drop_last() =~= seq![e]);
            assert(region.last() == e);
            assert(nonempty_lines(region) == nonempty_lines(seq![e, sd]));
            assert(seq![e, sd].last() == sd);
            if sd.len() > 0 {
                assert(nonempty_lines(seq![e, sd]) == nonempty_lines(seq![e]).push(sd));
                assert(nonempty_lines(region) =~= seq![sd]);
                assert(join_lines(seq![sd]) == sd);
                if d.len() > 0 && d.last() == '\r' {
                    lemma_trim_drop_ws_last(d);
                }
            } else {
                assert(nonempty_lines(seq![e, sd]) == nonempty_lines(seq![e]));
                assert(nonempty_lines(region) =~= Seq::<Seq<char>>::empty());
            }
        },
        None => {
            assert(region =~= seq![e]);
            assert(nonempty_lines(region) =~= Seq::<Seq<char>>::empty());
        },
    }
}

/// A text with a non-whitespace character trims to something non-empty.
proof fn lemma_has_content(x: Seq<char>, i: int)
    requires
        0 <= i < x.len(),
        !is_whitespace(x[i]),
    ensures
        trim(x).len() > 0,
{
    let (a, c) = lemma_trim_range(x);
}

/// A text that trims to something non-empty has a non-whitespace character.
proof fn lemma_content_witness(x: Seq<char>) -> (i: int)
    requires
        trim(x).len() > 0,
    ensures
        0 <= i < x.len(),
        !is_whitespace(x[i]),
{
    let (a, c) = lemma_trim_range(x);
    c - 1
}

/// A README generated with a body (as `cargo furnish update --readme` writes
/// it) is not reported as the default template, when the crate name,
/// repository and description are single lines, the body is not blank, no
/// line of the body, of the license text nor the description looks like a
/// badge line, and no line of the body nor the description looks like the
/// license heading.
pub proof fn law_generated_readme_with_body_is_not_default(
    name: Seq<char>,
    description: Option<Seq<char>>,
    body: Seq<char>,
    repository: Seq<char>,
    license: Seq<char>,
)
    requires
        no_newline(name),
        no_newline(repository),
        no_line_starts_with(license, badge_start()),
        description matches Some(d) ==> (no_newline(d) && !starts_with(d, badge_start())
            && !starts_with(d, license_heading())),
        no_line_starts_with(body, badge_start()),
        no_line_starts_with(body, license_heading()),
        trim(body).len() > 0,
    ensures
        !is_default_text(readme_text(name, description, Some(body), repository, license), description),
{
    let text = readme_text(name, description, Some(body), repository, license);
    let t = template_lines(name, description, Some(body), repository, license);
    lemma_template_text(name, description, Some(body), repository, license);
    lemma_template_no_newline(name, description, Some(body), repository, license);
    lemma_lines_unlines(t);
    lemma_template_badges(name, repository);
    lemma_template_fixed_lines(name);
    let ls = lines(text);
    assert(ls == t.map_values(|l: Seq<char>| strip_cr(l)));
    let e = Seq::<char>::empty();
    assert(strip_cr(e) == e);
    let lsp = split_on(license, '\n');
    let bsp = split_on(body, '\n');
    let tb = text_lines(body);
    let head = seq![
        "# "@ + name,
        e,
        crates_badge_line(name),
        docs_badge_line(name),
        ci_badge_line(repository),
        license_badge_line(name, repository),
    ];
    let pd = paragraph_lines(description);
    if let Some(d) = description {
        lemma_split_single(d);
        assert(pd =~= seq![e, d]);
    }
    let pb = paragraph_lines(Some(body));
    let fixed = seq![e, license_heading(), e];
    let pre = head + pd + pb + fixed;
    assert(t == pre + lsp);
    let bi: int = if description is Some { 9 } else { 7 };
    let be: int = bi + bsp.len();
    let lic: int = be + 1;
    assert(pb == seq![e] + bsp);
    assert(pre.len() == lic + 2);
    assert(ls.len() == lic + 2 + lsp.len());
    assert forall|j: int| 0 <= j < ls.len() implies ls[j] == strip_cr(t[j]) by {}
    assert forall|j: int| 0 <= j < pre.len() implies t[j] == pre[j] by {}
    assert forall|j: int| bi <= j < be implies t[j] == bsp[j - bi] by {
        assert(pre[j] == pb[j - bi + 1]);
    }
    assert forall|j: int| bi <= j < be implies ls[j] == tb[j - bi] by {
        assert(t[j] == bsp[j - bi]);
    }
    assert(ls[5] == license_badge_line(name, repository));
    assert(ls[lic] == license_heading());
    assert(ls[bi - 1] == e);
    assert forall|j: int| 6 <= j < ls.len() implies !is_badge_line()(#[trigger] ls[j]) by {
        if j >= lic + 2 {
            assert(t[j] == lsp[j - lic - 2]);
            assert(text_lines(license)[j - lic - 2] == strip_cr(lsp[j - lic - 2]));
        } else if bi <= j < be {
            assert(ls[j] == tb[j - bi]);
        } else if j == 7 && description is Some {
            let d = description->0;
            if starts_with(strip_cr(d), badge_start()) {
                lemma_starts_with_strip_cr(d, badge_start());
            }
        }
    }
    lemma_last_with_at(ls, is_badge_line(), 6);
    assert forall|j: int| 0 <= j < lic implies not_license_line()(#[trigger] ls[j]) by {
        if bi <= j < be {
            assert(ls[j] == tb[j - bi]);
        } else if j == 7 && description is Some {
            let d = description->0;
            if starts_with(strip_cr(d), license_heading()) {
                lemma_starts_with_strip_cr(d, license_heading());
            }
        }
    }
    lemma_count_leading_at(ls, not_license_line(), lic);
    // the body keeps its content among the non-empty lines
    let q = lemma_content_witness(body);
    let (jb, kb) = lemma_split_content(body, q);
    assert(tb[jb] == strip_cr(bsp[jb]));
    let m = lemma_join_content(tb, jb, kb);
    let nb = nonempty_lines(tb);
    let jn = join_lines(nb);
    assert(nb.len() > 0) by {
        if nb.len() == 0 {
            assert(jn =~= Seq::<char>::empty());
        }
    }
    let region = ls.subrange(6, lic);
    let none = Seq::<Seq<char>>::empty();
    assert(nonempty_lines(none) == none);
    assert(seq![e].last() == e);
    assert(seq![e].drop_last() =~= none);
    assert(nonempty_lines(seq![e]) == nonempty_lines(none));
    let pr: Seq<Seq<char>> = if let Some(d) = description {
        seq![e, strip_cr(d), e]
    } else {
        seq![e]
    };
    assert(region =~= pr + tb + seq![e]);
    lemma_nonempty_lines_concat(pr + tb, seq![e]);
    lemma_nonempty_lines_concat(pr, tb);
    assert(nonempty_lines(region) =~= nonempty_lines(pr) + nb);
    match description {
        Some(d) => {
            let sd = strip_cr(d);
            assert(pr.drop_last() =~= seq![e, sd]);
            assert(seq![e, sd].drop_last() =~= seq![e]);
            assert(pr.last() == e);
            assert(seq![e, sd].last() == sd);
            assert(nonempty_lines(pr) == nonempty_lines(seq![e, sd]));
            if d.len() > 0 && d.last() == '\r' {
                lemma_trim_drop_ws_last(d);
            }
            assert(trim(sd) == trim(d));
            lemma_trim_no_newline(d);
            if sd.len() > 0 {
                assert(nonempty_lines(seq![e, sd]) == nonempty_lines(seq![e]).push(sd));
                assert(nonempty_lines(region) =~= seq![sd] + nb);
                lemma_join_lines_cons(sd, nb);
                let joined = sd + seq!['\n'] + jn;
                assert(join_lines(nonempty_lines(region)) == joined);
                let nl = sd.len() as int;
                assert(joined[nl] == '\n');
                assert(joined[nl + 1 + m] == jn[m]);
                lemma_has_content(joined, nl + 1 + m);
                if trim(d).len() > 0 {
                    let i = lemma_content_witness(sd);
                    assert(joined[i] == sd[i]);
                    let (a, c) = lemma_trim_range(joined);
                    assert(a <= i && nl + 1 + m < c);
                    assert(trim(joined)[nl - a] == joined[nl]);
                    assert(!no_newline(trim(joined)));
                }
            } else {
                assert(nonempty_lines(seq![e, sd]) == nonempty_lines(seq![e]));
                assert(nonempty_lines(region) =~= nb);
                lemma_has_content(jn, m);
                assert(trim(sd).len() == 0) by {
                    assert(trim_start(sd) == sd);
                }
            }
        },
        None => {
            assert(nonempty_lines(pr) == none);
            assert(nonempty_lines(region) =~= nb);
            lemma_has_content(jn, m);
        },
    }
}

/// The README check on a generated README, with the description it was
/// generated with: the only finding is the "default template" one, and it
/// comes exactly when no body was given (under the conditions of the two laws
/// above).
pub proof fn law_check_of_generated_readme(
    name: Seq<char>,
    description: Option<Seq<char>>,
    body: Option<Seq<char>>,
    repository: Seq<char>,
    license: Seq<char>,
)
    requires
        no_newline(name),
        no_newline(repository),
        no_line_starts_with(license, badge_start()),
        description matches Some(d) ==> (no_newline(d) && !starts_with(d, badge_start())
            && !starts_with(d, license_heading())),
        body matches Some(b) ==> (no_line_starts_with(b, badge_start()) && no_line_starts_with(
            b,
            license_heading(),
        ) && trim(b).len() > 0),
    ensures
        readme_issues(readme_text(name, description, body, repository, license), description) == (
        if body is None {
            seq![ReadmeIssue::DefaultReadme]
        } else {
            Seq::<ReadmeIssue>::empty()
        }),
{
    law_generated_readme_has_badges(name, description, body, repository, license, description);
    match body {
        Some(b) => law_generated_readme_with_body_is_not_default(
            name,
            description,
            b,
            repository,
            license,
        ),
        None => law_generated_readme_without_body_is_default(
            name,
            description,
            repository,
            license,
        ),
    }
}

proof fn lemma_issues_add_contains(a: Seq<ReadmeIssue>, b: Seq<ReadmeIssue>, x: ReadmeIssue)
    ensures
        (a + b).contains(x) <==> (a.contains(x) || b.contains(x)),
{
    if (a + b).contains(x) {
        let i = choose|i: int| 0 <= i < (a + b).len() && (a + b)[i] == x;
        if i < a.len() {
            assert(a[i] == x);
        } else {
            assert(b[i - a.len()] == x);
        }
    }
    if a.contains(x) {
        let i = choose|i: int| 0 <= i < a.len() && a[i] == x;
        assert((a + b)[i] == x);
    }
    if b.contains(x) {
        let i = choose|i: int| 0 <= i < b.len() && b[i] == x;
        assert((a + b)[a.len() + i] == x);
    }
}

proof fn lemma_issue_if_nodup(c: bool, i: ReadmeIssue)
    ensures
        issue_if(c, i).no_duplicates(),
{
}

proof fn lemma_issues_add_nodup(a: Seq<ReadmeIssue>, b: Seq<ReadmeIssue>)
    requires
        a.no_duplicates(),
        b.no_duplicates(),
        forall|x: ReadmeIssue| !(a.contains(x) && #[trigger] b.contains(x)),
    ensures
        (a + b).no_duplicates(),
{
    assert forall|i: int, k: int| 0 <= i < (a + b).len() && 0 <= k < (a + b).len() && i != k
        implies (a + b)[i] != (a + b)[k] by {
        if i < a.len() && k >= a.len() {
            assert(a.contains((a + b)[i]));
            assert(b[k - a.len()] == (a + b)[k]);
            assert(b.contains((a + b)[k]));
        } else if k < a.len() && i >= a.len() {
            assert(a.contains((a + b)[k]));
            assert(b[i - a.len()] == (a + b)[i]);
            assert(b.contains((a + b)[i]));
        } else if i >= a.len() && k >= a.len() {
            assert(b[i - a.len()] == (a + b)[i]);
            assert(b[k - a.len()] == (a + b)[k]);
        }
    }
}

proof fn lemma_issue_if_contains(c: bool, i: ReadmeIssue, x: ReadmeIssue)
    ensures
        issue_if(c, i).contains(x) <==> (c && x == i),
        issue_if(c, i).len() <= 1,
{
    if c {
        assert(seq![i][0] == i);
    }
}

/// Each README finding is reported exactly when its own condition holds,
/// whatever else the README holds: a badge finding when the text lacks that
/// badge's marker, the license-section finding when it lacks `## License`,
/// the default-template finding when the README is the bare template; the
/// "missing README" finding never comes for an existing file, and no finding
/// comes twice.
pub proof fn law_readme_findings_each_on_its_own(t: Seq<char>, d: Option<Seq<char>>)
    ensures
        readme_issues(t, d).contains(ReadmeIssue::CratesBadge) <==> !contains(
            t,
            "img.shields.io/crates/v/"@,
        ),
        readme_issues(t, d).contains(ReadmeIssue::DocsBadge) <==> !contains(t, "docs.rs/"@),
        readme_issues(t, d).contains(ReadmeIssue::CiBadge) <==> !contains(t, "/actions/workflows/"@),
        readme_issues(t, d).contains(ReadmeIssue::LicenseBadge) <==> !contains(
            t,
            "img.shields.io/crates/l/"@,
        ),
        readme_issues(t, d).contains(ReadmeIssue::LicenseSection) <==> !contains(t, "## License"@),
        readme_issues(t, d).contains(ReadmeIssue::DefaultReadme) <==> is_default_text(t, d),
        !readme_issues(t, d).contains(ReadmeIssue::Missing),
        readme_issues(t, d).no_duplicates(),
{
    let a = issue_if(!contains(t, crates_marker()), ReadmeIssue::CratesBadge);
    let b = issue_if(!contains(t, docs_marker()), ReadmeIssue::DocsBadge);
    let c = issue_if(!contains(t, ci_marker()), ReadmeIssue::CiBadge);
    let l = issue_if(!contains(t, license_badge_marker()), ReadmeIssue::LicenseBadge);
    let s = issue_if(!contains(t, license_heading()), ReadmeIssue::LicenseSection);
    let f = issue_if(is_default_text(t, d), ReadmeIssue::DefaultReadme);
    let r = readme_issues(t, d);
    assert(r == a + b + c + l + s + f);
    assert forall|x: ReadmeIssue| #[trigger] r.contains(x) <==> (a.contains(x) || b.contains(x)
        || c.contains(x) || l.contains(x) || s.contains(x) || f.contains(x)) by {
        lemma_issues_add_contains(a + b + c + l + s, f, x);
        lemma_issues_add_contains(a + b + c + l, s, x);
        lemma_issues_add_contains(a + b + c, l, x);
        lemma_issues_add_contains(a + b, c, x);
        lemma_issues_add_contains(a, b, x);
    }
    assert forall|x: ReadmeIssue| #[trigger] r.contains(x) <==> (
        (!contains(t, crates_marker()) && x == ReadmeIssue::CratesBadge)
        || (!contains(t, docs_marker()) && x == ReadmeIssue::DocsBadge)
        || (!contains(t, ci_marker()) && x == ReadmeIssue::CiBadge)
        || (!contains(t, license_badge_marker()) && x == ReadmeIssue::LicenseBadge)
        || (!contains(t, license_heading()) && x == ReadmeIssue::LicenseSection)
        || (is_default_text(t, d) && x == ReadmeIssue::DefaultReadme)) by {
        lemma_issue_if_contains(!contains(t, crates_marker()), ReadmeIssue::CratesBadge, x);
        lemma_issue_if_contains(!contains(t, docs_marker()), ReadmeIssue::DocsBadge, x);
        lemma_issue_if_contains(!contains(t, ci_marker()), ReadmeIssue::CiBadge, x);
        lemma_issue_if_contains(!contains(t, license_badge_marker()), ReadmeIssue::LicenseBadge, x);
        lemma_issue_if_contains(!contains(t, license_heading()), ReadmeIssue::LicenseSection, x);
        lemma_issue_if_contains(is_default_text(t, d), ReadmeIssue::DefaultReadme, x);
    }
    assert(r.contains(ReadmeIssue::CratesBadge) <==> !contains(t, crates_marker()));
    assert(r.contains(ReadmeIssue::DocsBadge) <==> !contains(t, docs_marker()));
    assert(r.contains(ReadmeIssue::CiBadge) <==> !contains(t, ci_marker()));
    assert(r.contains(ReadmeIssue::LicenseBadge) <==> !contains(t, license_badge_marker()));
    assert(r.contains(ReadmeIssue::LicenseSection) <==> !contains(t, license_heading()));
    assert(r.contains(ReadmeIssue::DefaultReadme) <==> is_default_text(t, d));
    assert(!r.contains(ReadmeIssue::Missing));
    // no finding twice: the blocks hold one kind each, all different
    lemma_issue_if_nodup(!contains(t, crates_marker()), ReadmeIssue::CratesBadge);
    lemma_issue_if_nodup(!contains(t, docs_marker()), ReadmeIssue::DocsBadge);
    lemma_issue_if_nodup(!contains(t, ci_marker()), ReadmeIssue::CiBadge);
    lemma_issue_if_nodup(!contains(t, license_badge_marker()), ReadmeIssue::LicenseBadge);
    lemma_issue_if_nodup(!contains(t, license_heading()), ReadmeIssue::LicenseSection);
    lemma_issue_if_nodup(is_default_text(t, d), ReadmeIssue::DefaultReadme);
    assert forall|x: ReadmeIssue| !(a.contains(x) && #[trigger] b.contains(x)) by {
        lemma_issue_if_contains(!contains(t, crates_marker()), ReadmeIssue::CratesBadge, x);
        lemma_issue_if_contains(!contains(t, docs_marker()), ReadmeIssue::DocsBadge, x);
    }
    lemma_issues_add_nodup(a, b);
    assert forall|x: ReadmeIssue| !((a + b).contains(x) && #[trigger] c.contains(x)) by {
        lemma_issues_add_contains(a, b, x);
        lemma_issue_if_contains(!contains(t, crates_marker()), ReadmeIssue::CratesBadge, x);
        lemma_issue_if_contains(!contains(t, docs_marker()), ReadmeIssue::DocsBadge, x);
        lemma_issue_if_contains(!contains(t, ci_marker()), ReadmeIssue::CiBadge, x);
    }
    lemma_issues_add_nodup(a + b, c);
    assert forall|x: ReadmeIssue| !((a + b + c).contains(x) && #[trigger] l.contains(x)) by {
        lemma_issues_add_contains(a + b, c, x);
        lemma_issues_add_contains(a, b, x);
        lemma_issue_if_contains(!contains(t, crates_marker()), ReadmeIssue::CratesBadge, x);
        lemma_issue_if_contains(!contains(t, docs_marker()), ReadmeIssue::DocsBadge, x);
        lemma_issue_if_contains(!contains(t, ci_marker()), ReadmeIssue::CiBadge, x);
        lemma_issue_if_contains(!contains(t, license_badge_marker()), ReadmeIssue::LicenseBadge, x);
    }
    lemma_issues_add_nodup(a + b + c, l);
    assert forall|x: ReadmeIssue| !((a + b + c + l).contains(x) && #[trigger] s.contains(x)) by {
        lemma_issues_add_contains(a + b + c, l, x);
        lemma_issues_add_contains(a + b, c, x);
        lemma_issues_add_contains(a, b, x);
        lemma_issue_if_contains(!contains(t, crates_marker()), ReadmeIssue::CratesBadge, x);
        lemma_issue_if_contains(!contains(t, docs_marker()), ReadmeIssue::DocsBadge, x);
        lemma_issue_if_contains(!contains(t, ci_marker()), ReadmeIssue::CiBadge, x);
        lemma_issue_if_contains(!contains(t, license_badge_marker()), ReadmeIssue::LicenseBadge, x);
        lemma_issue_if_contains(!contains(t, license_heading()), ReadmeIssue::LicenseSection, x);
    }
    lemma_issues_add_nodup(a + b + c + l, s);
    assert forall|x: ReadmeIssue| !((a + b + c + l + s).contains(x) && #[trigger] f.contains(x)) by {
        lemma_issues_add_contains(a + b + c + l, s, x);
        lemma_issues_add_contains(a + b + c, l, x);
        lemma_issues_add_contains(a + b, c, x);
        lemma_issues_add_contains(a, b, x);
        lemma_issue_if_contains(!contains(t, crates_marker()), ReadmeIssue::CratesBadge, x);
        lemma_issue_if_contains(!contains(t, docs_marker()), ReadmeIssue::DocsBadge, x);
        lemma_issue_if_contains(!contains(t, ci_marker()), ReadmeIssue::CiBadge, x);
        lemma_issue_if_contains(!contains(t, license_badge_marker()), ReadmeIssue::LicenseBadge, x);
        lemma_issue_if_contains(!contains(t, license_heading()), ReadmeIssue::LicenseSection, x);
        lemma_issue_if_contains(is_default_text(t, d), ReadmeIssue::DefaultReadme, x);
    }
    lemma_issues_add_nodup(a + b + c + l + s, f);
}

/// The default-template test, from the README's lines: the README is the
/// bare template exactly when some line starts with `[![` and, after the last
/// such line, the first line that starts with `## License` comes; and the
/// non-empty lines between them, joined by line breaks, are only whitespace
/// or, trimmed, the description trimmed.
pub proof fn law_default_readme_from_lines(t: Seq<char>, d: Option<Seq<char>>)
    ensures
        is_default_text(t, d) <==> exists|b: int, l: int|
            #![trigger lines(t)[b], lines(t)[l]]
            0 <= b < l < lines(t).len() && starts_with(lines(t)[b], "[!["@) && (forall|j: int|
                b < j < lines(t).len() ==> !#[trigger] starts_with(lines(t)[j], "[!["@))
                && starts_with(lines(t)[l], "## License"@) && (forall|j: int|
                0 <= j < l ==> !#[trigger] starts_with(lines(t)[j], "## License"@)) && (trim(
                join_lines(nonempty_lines(lines(t).subrange(b + 1, l))),
            ).len() == 0 || (d is Some && trim(
                join_lines(nonempty_lines(lines(t).subrange(b + 1, l))),
            ) == trim(d->0))),
{
    let ls = lines(t);
    law_last_with_is_last(ls, is_badge_line());
    lemma_count_leading_stop(ls, not_license_line());
    let be = last_with(ls, is_badge_line());
    let ls0 = count_leading(ls, not_license_line()) as int;
    let body_ok = |b: int, l: int|
        trim(join_lines(nonempty_lines(ls.subrange(b + 1, l)))).len() == 0 || (d is Some && trim(
            join_lines(nonempty_lines(ls.subrange(b + 1, l))),
        ) == trim(d->0));
    if is_default_text(t, d) {
        assert(be >= 0 && ls0 < ls.len() && be < ls0);
        assert(is_badge_line()(ls[be]));
        assert(!not_license_line()(ls[ls0]));
        assert forall|j: int| be < j < ls.len() implies !#[trigger] starts_with(ls[j], "[!["@) by {
            assert(!is_badge_line()(ls[j]));
        }
        assert forall|j: int| 0 <= j < ls0 implies !#[trigger] starts_with(ls[j], "## License"@) by {
            assert(not_license_line()(ls[j]));
        }
        assert(body_ok(be, ls0));
    }
    if exists|b: int, l: int|
        #![trigger lines(t)[b], lines(t)[l]]
        0 <= b < l < lines(t).len() && starts_with(lines(t)[b], "[!["@) && (forall|j: int|
            b < j < lines(t).len() ==> !#[trigger] starts_with(lines(t)[j], "[!["@))
            && starts_with(lines(t)[l], "## License"@) && (forall|j: int|
            0 <= j < l ==> !#[trigger] starts_with(lines(t)[j], "## License"@)) && body_ok(b, l) {
        let (b, l) = choose|b: int, l: int|
            #![trigger lines(t)[b], lines(t)[l]]
            0 <= b < l < lines(t).len() && starts_with(lines(t)[b], "[!["@) && (forall|j: int|
                b < j < lines(t).len() ==> !#[trigger] starts_with(lines(t)[j], "[!["@))
                && starts_with(lines(t)[l], "## License"@) && (forall|j: int|
                0 <= j < l ==> !#[trigger] starts_with(lines(t)[j], "## License"@)) && body_ok(b, l);
        assert(is_badge_line()(ls[b]));
        if be > b {
            assert(starts_with(ls[be], "[!["@));
        }
        if be < b {
            assert(!is_badge_line()(ls[b]));
        }
        assert(be == b);
        if ls0 < l {
            assert(!not_license_line()(ls[ls0]));
            assert(!starts_with(ls[ls0], "## License"@));
        }
        if ls0 > l {
            assert(not_license_line()(ls[l]));
        }
        assert(ls0 == l);
    }
}

/// Where the "missing `## License`" finding points: at the last non-empty
/// line (its byte offset, the bytes of the lines before it with their line
/// breaks, and its byte length), or at the first byte when every line is
/// empty.
pub proof fn law_last_line_span_from_lines(t: Seq<char>)
    ensures
        (forall|j: int| 0 <= j < lines(t).len() ==> (#[trigger] lines(t)[j]).len() == 0)
            ==> last_nonempty_line_span(t) == (0nat, 1nat),
        !(forall|j: int| 0 <= j < lines(t).len() ==> (#[trigger] lines(t)[j]).len() == 0)
            ==> exists|k: int|
            0 <= k < lines(t).len() && (#[trigger] lines(t)[k]).len() > 0 && (forall|j: int|
                k < j < lines(t).len() ==> (#[trigger] lines(t)[j]).len() == 0)
                && last_nonempty_line_span(t) == (
                byte_len(unlines(lines(t).take(k))),
                byte_len(lines(t)[k]),
            ),
{
    let ls = lines(t);
    law_last_with_is_last(ls, nonempty_line());
    let k = last_with(ls, nonempty_line());
    if k >= 0 {
        law_line_offset_counts_bytes(ls, k);
        assert forall|j: int| k < j < ls.len() implies (#[trigger] ls[j]).len() == 0 by {
            assert(!nonempty_line()(ls[j]));
        }
        assert(nonempty_line()(ls[k]));
    } else {
        assert forall|j: int| 0 <= j < ls.len() implies (#[trigger] ls[j]).len() == 0 by {
            assert(!nonempty_line()(ls[j]));
        }
    }
}

} // verus!
