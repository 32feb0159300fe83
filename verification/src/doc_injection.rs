//! The `#![doc = include_str!("../README.md")]` line: checking that a crate's
//! root source file starts with it, and rewriting the file so that it does.

use vstd::prelude::*;

use crate::source::{owned, SourceText, Span};
use crate::text::{
    byte_len, byte_len_of, chars_of, count_leading, lemma_count_leading_stop, first_line_width, lemma_count_leading_at,
    lemma_line_offset_mono, lemma_lines_cons, lemma_lines_no_newline, lemma_lines_unlines,
    lemma_lines_within, lemma_trim_end_at, lemma_trim_start_at, lemma_unlines_cons, line_offset, law_line_offset_counts_bytes,
    lines, lines_of, no_newline, push_char, push_chars, push_str, starts_with, starts_with_chars,
    strip_cr, trim, trim_chars, unlines, views,
};

verus! {

/// The line that makes the README the crate-level documentation.
pub open spec fn doc_line_text() -> Seq<char> {
    "#![doc = include_str!(\"../README.md\")]"@
}

/// The doc-include line as a string slice.
pub fn doc_line() -> (r: &'static str)
    ensures
        r@ == doc_line_text(),
{
    "#![doc = include_str!(\"../README.md\")]"
}

/// The marker of an inner doc comment.
pub open spec fn doc_comment_marker() -> Seq<char> {
    "//!"@
}

/// A line that begins an inner doc comment.
pub open spec fn is_doc_comment(l: Seq<char>) -> bool {
    starts_with(l, doc_comment_marker())
}

pub open spec fn not_doc_comment() -> spec_fn(Seq<char>) -> bool {
    |l: Seq<char>| !is_doc_comment(l)
}

/// A line that the rewrite drops while it comes before the code: a `//!`
/// line or an empty line.
pub open spec fn doc_or_empty() -> spec_fn(Seq<char>) -> bool {
    |l: Seq<char>| is_doc_comment(l) || l.len() == 0
}

/// The first line, trimmed, is the doc-include line.
pub open spec fn has_doc_include(ls: Seq<Seq<char>>) -> bool {
    ls.len() > 0 && trim(ls[0]) == doc_line_text()
}

/// Some line begins an inner doc comment.
pub open spec fn has_doc_comment(ls: Seq<Seq<char>>) -> bool {
    exists|i: int| 0 <= i < ls.len() && #[trigger] is_doc_comment(ls[i])
}

/// Index of the first line that begins an inner doc comment.
pub open spec fn first_doc_comment(ls: Seq<Seq<char>>) -> nat {
    count_leading(ls, not_doc_comment())
}

/// What the check finds in a root source file.
pub enum DocStatus {
    /// The first line is the doc-include line.
    Present,
    /// No doc include, and a `//!` line at this byte span.
    CommentAt { offset: nat, len: nat },
    /// No doc include and no `//!` line; the span covers the first line.
    Missing { len: nat },
}

pub open spec fn doc_status(text: Seq<char>) -> DocStatus {
    let ls = lines(text);
    if has_doc_include(ls) {
        DocStatus::Present
    } else if has_doc_comment(ls) {
        let k = first_doc_comment(ls) as int;
        DocStatus::CommentAt { offset: line_offset(ls, k), len: byte_len(ls[k]) }
    } else {
        DocStatus::Missing { len: first_line_width(ls) }
    }
}

/// The lines that stay after the rewrite: every `//!` line and every empty
/// line before the first line of code is dropped.
pub open spec fn kept_lines(ls: Seq<Seq<char>>) -> Seq<Seq<char>> {
    ls.skip(count_leading(ls, doc_or_empty()) as int)
}

/// The rewritten file: the doc-include line, then, when any line is kept, an
/// empty line and the kept lines, each ended by `'\n'`.
pub open spec fn injected_text(text: Seq<char>) -> Seq<char> {
    let kept = kept_lines(lines(text));
    doc_line_text() + seq!['\n'] + if kept.len() > 0 {
        seq!['\n'] + unlines(kept)
    } else {
        Seq::empty()
    }
}

/// A root source file holds `//!` comments that the doc include would replace.
#[derive(Debug)]
pub struct DocExistsError {
    pub src: SourceText,
    pub span: Span,
    pub crate_name: String,
}

/// A root source file does not start with the doc-include line.
#[derive(Debug)]
pub struct DocMissingError {
    pub src: SourceText,
    pub span: Span,
}

/// A finding of the doc-include check.
#[derive(Debug)]
pub enum DocDiagnostic {
    Exists(DocExistsError),
    Missing(DocMissingError),
}

/// The outcome of the doc-include fix.
#[derive(Debug)]
pub enum DocFix {
    /// The file already starts with the doc include; nothing is written.
    Unchanged,
    /// The new contents of the file.
    Rewritten(String),
}

/// Index of the first line that starts with `marker` (or the number of lines).
fn first_line_with_prefix(ls: &Vec<Vec<char>>, marker: &Vec<char>) -> (r: usize)
    ensures
        r <= ls@.len(),
        forall|j: int| 0 <= j < r ==> !starts_with(#[trigger] ls@[j]@, marker@),
        r < ls@.len() ==> starts_with(ls@[r as int]@, marker@),
{
    let n = ls.len();
    let mut i: usize = 0;
    while i < n && !starts_with_chars(&ls[i], marker)
        invariant
            i <= n == ls@.len(),
            forall|j: int| 0 <= j < i ==> !starts_with(#[trigger] ls@[j]@, marker@),
        decreases n - i,
    {
        i = i + 1;
    }
    i
}

/// The byte offset of line `k`.
fn line_start(ls: &Vec<Vec<char>>, k: usize, Ghost(text): Ghost<Seq<char>>) -> (r: usize)
    requires
        views(ls@) == lines(text),
        byte_len(text) <= usize::MAX,
        k < ls@.len(),
    ensures
        r == line_offset(views(ls@), k as int),
{
    let ghost lv = views(ls@);
    proof {
        lemma_lines_within(text, k as int);
    }
    let mut offset: usize = 0;
    let mut i: usize = 0;
    while i < k
        invariant
            lv == views(ls@),
            k < ls@.len(),
            i <= k,
            offset == line_offset(lv, i as int),
            line_offset(lv, k as int) <= usize::MAX,
        decreases k - i,
    {
        proof {
            lemma_line_offset_mono(lv, i + 1, k as int);
            assert(lv[i as int] == ls@[i as int]@);
        }
        let w = byte_len_of(&ls[i]);
        offset = offset + w + 1;
        i = i + 1;
    }
    offset
}

/// Whether the trimmed first line is the doc-include line.
fn starts_with_doc_include(ls: &Vec<Vec<char>>, doc: &Vec<char>) -> (r: bool)
    requires
        doc@ == doc_line_text(),
    ensures
        r == has_doc_include(views(ls@)),
{
    if ls.len() == 0 {
        return false;
    }
    let t = trim_chars(&ls[0]);
    assert(views(ls@)[0] == ls@[0]@);
    let n = t.len();
    if n != doc.len() {
        return false;
    }
    let mut i: usize = 0;
    while i < n
        invariant
            n == t@.len() == doc@.len(),
            i <= n,
            ls@.len() > 0,
            t@ == trim(views(ls@)[0]),
            doc@ == doc_line_text(),
            forall|j: int| 0 <= j < i ==> t@[j] == doc@[j],
        decreases n - i,
    {
        if t[i] != doc[i] {
            assert(t@[i as int] != doc@[i as int]);
            return false;
        }
        i = i + 1;
    }
    assert(t@ =~= doc@);
    true
}

/// Index of the first `//!` line (or the number of lines).
fn find_doc_comment(ls: &Vec<Vec<char>>, marker: &Vec<char>) -> (k: usize)
    requires
        marker@ == doc_comment_marker(),
    ensures
        k == first_doc_comment(views(ls@)),
        (k < ls@.len()) == has_doc_comment(views(ls@)),
        k < ls@.len() ==> is_doc_comment(views(ls@)[k as int]),
{
    let ghost lv = views(ls@);
    let k = first_line_with_prefix(ls, marker);
    proof {
        assert forall|j: int| 0 <= j < k implies #[trigger] not_doc_comment()(lv[j]) by {
            assert(lv[j] == ls@[j]@);
        }
        if k < ls.len() {
            assert(lv[k as int] == ls@[k as int]@);
        }
        lemma_count_leading_at(lv, not_doc_comment(), k as int);
        if k < ls.len() {
            assert(is_doc_comment(lv[k as int]));
        } else {
            assert forall|j: int| 0 <= j < lv.len() implies !#[trigger] is_doc_comment(lv[j]) by {
                assert(lv[j] == ls@[j]@);
            }
        }
    }
    k
}

/// Checks that the crate's root source file starts with the doc-include line.
/// `file` is the root source file (`src/lib.rs`, else `src/main.rs`), or
/// `None` when there is none or it cannot be read: then nothing is reported.
pub fn check_doc_include(file: Option<&SourceText>, crate_name: &str) -> (r: Vec<DocDiagnostic>)
    requires
        file matches Some(src) ==> byte_len(src.text@) <= usize::MAX,
    ensures
        match file {
            None => r@.len() == 0,
            Some(src) => match doc_status(src.text@) {
                DocStatus::Present => r@.len() == 0,
                DocStatus::CommentAt { offset, len } => {
                    &&& r@.len() == 1
                    &&& r@[0] matches DocDiagnostic::Exists(e)
                    &&& e.span.offset == offset && e.span.len == len
                    &&& e.crate_name@ == crate_name@
                    &&& e.src.name@ == src.name@ && e.src.text@ == src.text@
                },
                DocStatus::Missing { len } => {
                    &&& r@.len() == 1
                    &&& r@[0] matches DocDiagnostic::Missing(e)
                    &&& e.span.offset == 0 && e.span.len == len
                    &&& e.src.name@ == src.name@ && e.src.text@ == src.text@
                },
            },
        },
{
    let mut r: Vec<DocDiagnostic> = Vec::new();
    let src = match file {
        None => return r,
        Some(src) => src,
    };
    let text = chars_of(src.text.as_str());
    let ls = lines_of(&text);
    let ghost lv = views(ls@);
    let doc = chars_of(doc_line());
    if starts_with_doc_include(&ls, &doc) {
        return r;
    }
    let marker = chars_of("//!");
    let k = find_doc_comment(&ls, &marker);
    if k < ls.len() {
        let offset = line_start(&ls, k, Ghost(text@));
        proof {
            lemma_lines_within(text@, k as int);
        }
        let len = byte_len_of(&ls[k]);
        assert(lv[k as int] == ls@[k as int]@);
        r.push(
            DocDiagnostic::Exists(
                DocExistsError {
                    src: src.duplicate(),
                    span: Span { offset, len },
                    crate_name: owned(crate_name),
                },
            ),
        );
    } else {
        let mut len: usize = 1;
        if ls.len() > 0 {
            proof {
                lemma_lines_within(text@, 0);
            }
            let w = byte_len_of(&ls[0]);
            assert(lv[0] == ls@[0]@);
            if w > 1 {
                len = w;
            }
        }
        r.push(DocDiagnostic::Missing(DocMissingError { src: src.duplicate(), span: Span { offset: 0, len } }));
    }
    r
}

/// Makes the crate's root source file start with the doc-include line.
///
/// A file that already starts with it is left as it is. A file with `//!`
/// lines is refused unless `force` is set. Otherwise every `//!` line and
/// every empty line before the first line of code is dropped and the doc-include line,
/// followed by an empty line, is put in front of the rest.
pub fn fix_doc_include(src: &SourceText, crate_name: &str, force: bool) -> (r: Result<
    DocFix,
    DocExistsError,
>)
    requires
        byte_len(src.text@) <= usize::MAX,
    ensures
        doc_status(src.text@) is Present ==> r matches Ok(DocFix::Unchanged),
        doc_status(src.text@) matches DocStatus::CommentAt { offset, len } ==> (!force ==> {
            &&& r matches Err(e)
            &&& e.span.offset == offset && e.span.len == len
            &&& e.crate_name@ == crate_name@
            &&& e.src.name@ == src.name@ && e.src.text@ == src.text@
        }),
        !(doc_status(src.text@) is Present) && !(doc_status(src.text@) is CommentAt && !force) ==> (
        r matches Ok(DocFix::Rewritten(t)) && t@ == injected_text(src.text@)),
{
    let text = chars_of(src.text.as_str());
    let ls = lines_of(&text);
    let ghost lv = views(ls@);
    let doc = chars_of(doc_line());
    if starts_with_doc_include(&ls, &doc) {
        return Ok(DocFix::Unchanged);
    }
    let marker = chars_of("//!");
    if !force {
        let k = find_doc_comment(&ls, &marker);
        if k < ls.len() {
            let offset = line_start(&ls, k, Ghost(text@));
            proof {
                lemma_lines_within(text@, k as int);
            }
            let len = byte_len_of(&ls[k]);
            assert(lv[k as int] == ls@[k as int]@);
            return Err(
                DocExistsError {
                    src: src.duplicate(),
                    span: Span { offset, len },
                    crate_name: owned(crate_name),
                },
            );
        }
    }
    let n = ls.len();
    let mut b: usize = 0;
    while b < n && (ls[b].len() == 0 || starts_with_chars(&ls[b], &marker))
        invariant
            b <= n == ls@.len(),
            lv == views(ls@),
            marker@ == doc_comment_marker(),
            forall|j: int| 0 <= j < b ==> #[trigger] doc_or_empty()(lv[j]),
        decreases n - b,
    {
        assert(lv[b as int] == ls@[b as int]@);
        b = b + 1;
    }
    proof {
        if b < n {
            assert(lv[b as int] == ls@[b as int]@);
        }
        lemma_count_leading_at(lv, doc_or_empty(), b as int);
        assert(kept_lines(lv) =~= lv.subrange(b as int, n as int));
    }
    let mut out = String::new();
    push_str(&mut out, doc_line());
    push_char(&mut out, '\n');
    if b < n {
        push_char(&mut out, '\n');
        let mut j = b;
        assert(lv.subrange(b as int, j as int) =~= Seq::<Seq<char>>::empty());
        while j < n
            invariant
                b <= j <= n == ls@.len(),
                lv == views(ls@),
                out@ == doc_line_text() + seq!['\n'] + seq!['\n'] + unlines(
                    lv.subrange(b as int, j as int),
                ),
            decreases n - j,
        {
            let ghost before = out@;
            push_chars(&mut out, &ls[j]);
            push_char(&mut out, '\n');
            proof {
                let sub = lv.subrange(b as int, j + 1);
                assert(sub.drop_last() =~= lv.subrange(b as int, j as int));
                assert(sub.last() == ls@[j as int]@);
                assert(out@ =~= doc_line_text() + seq!['\n'] + seq!['\n'] + unlines(sub));
            }
            j = j + 1;
        }
        assert(out@ =~= injected_text(src.text@));
    } else {
        assert(out@ =~= injected_text(src.text@));
    }
    Ok(DocFix::Rewritten(out))
}

/// The doc-include line has no line break, and trimming leaves it as it is.
pub proof fn lemma_doc_line_shape()
    ensures
        no_newline(doc_line_text()),
        strip_cr(doc_line_text()) == doc_line_text(),
        trim(doc_line_text()) == doc_line_text(),
{
    reveal_strlit("#![doc = include_str!(\"../README.md\")]");
    let d = doc_line_text();
    assert(d.len() == 38);
    assert(d[0] == '#');
    assert(d[37] == ']');
    assert forall|j: int| 0 <= j < d.len() implies d[j] != '\n' by {}
    lemma_trim_start_at(d, 0);
    assert(d.skip(0) =~= d);
    lemma_trim_end_at(d, d.len() as int);
    assert(d.take(d.len() as int) =~= d);
}

/// The doc-include fix is idempotent: a file it rewrote starts with the doc
/// include, so the check finds nothing in it and a second fix leaves it
/// unchanged.
pub proof fn law_fixed_file_has_doc_include(text: Seq<char>)
    ensures
        doc_status(injected_text(text)) is Present,
{
    lemma_doc_line_shape();
    let kept = kept_lines(lines(text));
    let tail = if kept.len() > 0 {
        seq!['\n'] + unlines(kept)
    } else {
        Seq::<char>::empty()
    };
    lemma_lines_cons(doc_line_text(), tail);
    assert(injected_text(text) == doc_line_text() + seq!['\n'] + tail);
}

/// The doc-include fix keeps the code: read back as lines, a rewritten file
/// is the doc-include line, then, when any line is kept, an empty line and
/// the kept lines (those from the first line of code on, the `//!` and empty
/// lines before it dropped), each read back without a final `'\r'`. The first
/// kept line is neither a `//!` line nor empty.
pub proof fn law_fix_keeps_code(text: Seq<char>)
    ensures
        lines(injected_text(text)) == (if kept_lines(lines(text)).len() > 0 {
            seq![doc_line_text(), Seq::<char>::empty()] + kept_lines(lines(text)).map_values(
                |l: Seq<char>| strip_cr(l),
            )
        } else {
            seq![doc_line_text()]
        }),
        kept_lines(lines(text)).len() > 0 ==> {
            let first = kept_lines(lines(text))[0];
            !is_doc_comment(first) && first.len() > 0
        },
{
    lemma_doc_line_shape();
    let ls = lines(text);
    let kept = kept_lines(ls);
    lemma_lines_no_newline(text);
    let a = count_leading(ls, doc_or_empty()) as int;
    lemma_count_leading_stop(ls, doc_or_empty());
    assert forall|i: int| 0 <= i < kept.len() implies no_newline(#[trigger] kept[i]) by {
        assert(kept[i] == ls[a + i]);
    }
    if kept.len() > 0 {
        let all = seq![doc_line_text(), Seq::<char>::empty()] + kept;
        assert forall|i: int| 0 <= i < all.len() implies no_newline(#[trigger] all[i]) by {
            if i >= 2 {
                assert(all[i] == kept[i - 2]);
            }
        }
        lemma_lines_unlines(all);
        lemma_unlines_cons(all);
        lemma_unlines_cons(all.drop_first());
        assert(all.drop_first().drop_first() =~= kept);
        assert(injected_text(text) =~= unlines(all));
        assert(all.map_values(|l: Seq<char>| strip_cr(l)) =~= seq![doc_line_text(), Seq::<char>::empty()]
            + kept.map_values(|l: Seq<char>| strip_cr(l)));
    } else {
        let all = seq![doc_line_text()];
        lemma_lines_unlines(all);
        lemma_unlines_cons(all);
        assert(all.drop_first() =~= Seq::<Seq<char>>::empty());
        assert(injected_text(text) =~= unlines(all));
        assert(all.map_values(|l: Seq<char>| strip_cr(l)) =~= seq![doc_line_text()]);
    }
}

/// The check's verdict on a root source file, from its lines alone: the doc
/// include counts as present exactly when the first line, trimmed, is the
/// include line; otherwise the first line that starts with `//!` is reported,
/// at its byte offset (the bytes of the lines before it, each with its line
/// break) and with its byte length; and with no such line the file is
/// reported as missing the include, at the first line (at least one byte).
pub proof fn law_doc_status_from_lines(text: Seq<char>)
    ensures
        (doc_status(text) is Present) <==> (lines(text).len() > 0 && trim(lines(text)[0])
            == "#![doc = include_str!(\"../README.md\")]"@),
        !(doc_status(text) is Present) ==> ((doc_status(text) is CommentAt) <==> exists|i: int|
            0 <= i < lines(text).len() && #[trigger] starts_with(lines(text)[i], "//!"@)),
        doc_status(text) matches DocStatus::CommentAt { offset, len } ==> exists|i: int|
            0 <= i < lines(text).len() && starts_with(lines(text)[i], "//!"@) && (forall|j: int|
                0 <= j < i ==> !#[trigger] starts_with(lines(text)[j], "//!"@)) && offset
                == byte_len(unlines(lines(text).take(i))) && len == byte_len(lines(text)[i]),
        doc_status(text) matches DocStatus::Missing { len } ==> len == (if lines(text).len() > 0
            && byte_len(lines(text)[0]) > 1 {
            byte_len(lines(text)[0])
        } else {
            1
        }),
{
    let ls = lines(text);
    if !has_doc_include(ls) && has_doc_comment(ls) {
        let k = first_doc_comment(ls) as int;
        lemma_count_leading_stop(ls, not_doc_comment());
        if k >= ls.len() {
            let i = choose|i: int| 0 <= i < ls.len() && #[trigger] is_doc_comment(ls[i]);
            assert(not_doc_comment()(ls[i]));
        }
        assert forall|j: int| 0 <= j < k implies !#[trigger] starts_with(ls[j], "//!"@) by {
            assert(not_doc_comment()(ls[j]));
        }
        law_line_offset_counts_bytes(ls, k);
    }
    if exists|i: int| 0 <= i < ls.len() && #[trigger] starts_with(ls[i], "//!"@) {
        let i = choose|i: int| 0 <= i < ls.len() && #[trigger] starts_with(ls[i], "//!"@);
        assert(is_doc_comment(ls[i]));
    }
}

/// The rewrite keeps the file from its first line of code on. When line `k`
/// is the first line that neither starts with `//!` nor is empty, the
/// rewritten file reads back as the doc-include line, an empty line, and the
/// lines from `k` on (each without a final `'\r'`); when every line starts
/// with `//!` or is empty, as the doc-include line alone.
pub proof fn law_fix_keeps_lines_from_first_code_line(text: Seq<char>, k: int)
    requires
        0 <= k <= lines(text).len(),
        forall|j: int|
            0 <= j < k ==> #[trigger] starts_with(lines(text)[j], "//!"@) || lines(text)[j].len()
                == 0,
        k < lines(text).len() ==> !starts_with(lines(text)[k], "//!"@) && lines(text)[k].len() > 0,
    ensures
        lines(injected_text(text)) == (if k < lines(text).len() {
            seq!["#![doc = include_str!(\"../README.md\")]"@, Seq::<char>::empty()] + lines(
                text,
            ).skip(k).map_values(|l: Seq<char>| strip_cr(l))
        } else {
            seq!["#![doc = include_str!(\"../README.md\")]"@]
        }),
{
    let ls = lines(text);
    assert forall|j: int| 0 <= j < k implies #[trigger] doc_or_empty()(ls[j]) by {
        assert(starts_with(ls[j], "//!"@) || ls[j].len() == 0);
    }
    lemma_count_leading_at(ls, doc_or_empty(), k);
    assert(kept_lines(ls) == ls.skip(k));
    law_fix_keeps_code(text);
}

} // verus!
