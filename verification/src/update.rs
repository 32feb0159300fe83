//! `cargo furnish update`: turning the command-line arguments into the
//! values that the update writes.

use vstd::prelude::*;

use crate::source::{opt_string, owned};
use crate::text::{
    chars_of, contains, occurs_at, replace_all, replace_all_chars, split_chars, split_on,
    starts_with, string_of, trim, trim_chars, views,
};
use crate::workspace::WorkspaceInfo;

verus! {

/// Arguments of `cargo furnish update`.
#[derive(Debug)]
pub struct UpdateArgs {
    /// Crate description (used in Cargo.toml and README)
    pub description: Option<String>,
    /// README body markdown (inserted between description and License section)
    pub readme: Option<String>,
    /// Comma-separated keywords
    pub keywords: Option<String>,
    /// Comma-separated categories
    pub categories: Option<String>,
    /// Overwrite existing README and doc comments
    pub force: bool,
}

/// The characters of an optional list of strings.
pub open spec fn opt_strings(o: Option<Vec<String>>) -> Option<Seq<Seq<char>>> {
    match o {
        Some(v) => Some(strings(v@)),
        None => None,
    }
}

/// The characters of each string.
pub open spec fn strings(v: Seq<String>) -> Seq<Seq<char>> {
    v.map_values(|s: String| s@)
}

/// `s` with each two-character escape `\n` replaced by a line break.
pub open spec fn unescaped(s: Seq<char>) -> Seq<char> {
    replace_all(s, "\\n"@, "\n"@)
}

/// No backslash in `t` is directly followed by an `n`.
pub open spec fn no_escape(t: Seq<char>) -> bool {
    forall|i: int| 0 <= i < t.len() - 1 && #[trigger] t[i] == '\\' ==> t[i + 1] != 'n'
}

/// The first character of an unescaped text: a line break where an escape
/// starts, else the first character as it was.
proof fn lemma_unescaped_first(s: Seq<char>)
    requires
        s.len() > 0,
    ensures
        unescaped(s).len() > 0,
        unescaped(s)[0] == (if starts_with(s, "\\n"@) {
            '\n'
        } else {
            s[0]
        }),
{
    reveal_strlit("\\n");
    reveal_strlit("\n");
}

proof fn lemma_unescaped_no_escape(s: Seq<char>)
    ensures
        no_escape(unescaped(s)),
    decreases s.len(),
{
    reveal_strlit("\\n");
    reveal_strlit("\n");
    let from = "\\n"@;
    let r = unescaped(s);
    if s.len() == 0 {
    } else if starts_with(s, from) {
        let t = s.skip(2);
        lemma_unescaped_no_escape(t);
        let rt = unescaped(t);
        assert(r == seq!['\n'] + rt);
        assert forall|i: int| 0 <= i < r.len() - 1 && #[trigger] r[i] == '\\' implies r[i + 1] != 'n' by {
            if i > 0 {
                assert(r[i] == rt[i - 1]);
                assert(r[i + 1] == rt[i]);
            }
        }
    } else {
        let t = s.drop_first();
        lemma_unescaped_no_escape(t);
        let rt = unescaped(t);
        assert(r == seq![s[0]] + rt);
        assert forall|i: int| 0 <= i < r.len() - 1 && #[trigger] r[i] == '\\' implies r[i + 1] != 'n' by {
            if i > 0 {
                assert(r[i] == rt[i - 1]);
                assert(r[i + 1] == rt[i]);
            } else {
                lemma_unescaped_first(t);
                assert(r[1] == rt[0]);
                if !starts_with(t, from) && t[0] == 'n' {
                    assert(s.take(2) =~= from);
                }
            }
        }
    }
}

proof fn lemma_unescaped_unchanged(t: Seq<char>)
    requires
        no_escape(t),
    ensures
        unescaped(t) == t,
    decreases t.len(),
{
    reveal_strlit("\\n");
    reveal_strlit("\n");
    if t.len() > 0 {
        let rest = t.drop_first();
        assert(no_escape(rest)) by {
            assert forall|i: int| 0 <= i < rest.len() - 1 && #[trigger] rest[i] == '\\' implies rest[i + 1] != 'n' by {
                assert(rest[i] == t[i + 1]);
                assert(t[i + 1] == '\\');
                assert(rest[i + 1] == t[i + 2]);
            }
        }
        lemma_unescaped_unchanged(rest);
        if starts_with(t, "\\n"@) {
            assert(t[0] == t.take(2)[0]);
            assert(t[1] == t.take(2)[1]);
        }
        assert(unescaped(t) =~= seq![t[0]] + rest);
    }
}

/// Unescaping leaves no `\n` escape behind: the result holds no backslash
/// followed by an `n`, so unescaping it again changes nothing.
pub proof fn law_unescape_removes_escapes(s: Seq<char>)
    ensures
        !contains(unescaped(s), "\\n"@),
        unescaped(unescaped(s)) == unescaped(s),
{
    reveal_strlit("\\n");
    let r = unescaped(s);
    lemma_unescaped_no_escape(s);
    if contains(r, "\\n"@) {
        let i = choose|i: int| occurs_at(r, "\\n"@, i);
        assert(r[i] == r.subrange(i, i + 2)[0]);
        assert(r[i + 1] == r.subrange(i, i + 2)[1]);
    }
    lemma_unescaped_unchanged(r);
}

/// Unescaping turns each `\n` escape into a line break and leaves the text
/// around it as it would be on its own: for any `a` and `b`, the text `a`,
/// an escape, then `b` unescapes to `a` unescaped, a line break, and `b`
/// unescaped.
pub proof fn law_unescape_at_escape(a: Seq<char>, b: Seq<char>)
    ensures
        unescaped(a + "\\n"@ + b) == unescaped(a) + "\n"@ + unescaped(b),
    decreases a.len(),
{
    reveal_strlit("\\n");
    reveal_strlit("\n");
    let esc = "\\n"@;
    let s = a + esc + b;
    if a.len() == 0 {
        assert(s =~= esc + b);
        assert(starts_with(s, esc)) by {
            assert(s.take(2) =~= esc);
        }
        assert(s.skip(2) =~= b);
        assert(unescaped(a) =~= Seq::<char>::empty());
        assert(unescaped(s) =~= "\n"@ + unescaped(b));
    } else if a.len() >= 2 && starts_with(a, esc) {
        let t = a.skip(2);
        law_unescape_at_escape(t, b);
        assert(s.take(2) =~= a.take(2));
        assert(s.skip(2) =~= t + esc + b);
        assert(unescaped(a) == "\n"@ + unescaped(t));
        assert(unescaped(s) =~= unescaped(a) + "\n"@ + unescaped(b));
    } else {
        let t = a.drop_first();
        law_unescape_at_escape(t, b);
        assert(!starts_with(s, esc)) by {
            if starts_with(s, esc) {
                assert(esc[0] == '\\' && esc[1] == 'n');
                assert(s[0] == s.take(2)[0] && s[1] == s.take(2)[1]);
                assert(s[0] == '\\' && s[1] == 'n');
                if a.len() == 1 {
                    assert(s[1] == esc[0]);
                } else {
                    assert(a.take(2) =~= esc);
                }
            }
        }
        assert(s.drop_first() =~= t + esc + b);
        assert(s[0] == a[0]);
        assert(unescaped(a) == seq![a[0]] + unescaped(t));
        assert(unescaped(s) =~= unescaped(a) + "\n"@ + unescaped(b));
    }
}

/// A text without a `\n` escape is left as it is.
pub proof fn law_unescape_without_escape(s: Seq<char>)
    requires
        !contains(s, "\\n"@),
    ensures
        unescaped(s) == s,
{
    reveal_strlit("\\n");
    assert forall|i: int| 0 <= i < s.len() - 1 && #[trigger] s[i] == '\\' implies s[i + 1] != 'n' by {
        if s[i + 1] == 'n' {
            assert(s.subrange(i, i + 2) =~= "\\n"@);
            assert(occurs_at(s, "\\n"@, i));
        }
    }
    lemma_unescaped_unchanged(s);
}

/// A comma-separated list has one item per piece between commas, empty
/// pieces included, each item being its piece trimmed.
pub proof fn law_list_items_one_per_piece(s: Seq<char>)
    ensures
        list_items(s).len() == split_on(s, ',').len(),
        forall|i: int| 0 <= i < list_items(s).len() ==> #[trigger] list_items(s)[i] == trim(split_on(s, ',')[i]),
{
}

/// The items of a comma-separated list, each trimmed; empty items are kept.
pub open spec fn list_items(s: Seq<char>) -> Seq<Seq<char>> {
    split_on(s, ',').map_values(|p: Seq<char>| trim(p))
}

/// Replaces each `\n` escape (a backslash and an `n`) by a line break.
pub fn unescape_newlines(s: &str) -> (r: String)
    ensures
        r@ == unescaped(s@),
{
    let v = chars_of(s);
    let from = chars_of("\\n");
    let to = chars_of("\n");
    proof {
        reveal_strlit("\\n");
    }
    let out = replace_all_chars(&v, &from, &to);
    string_of(&out)
}

/// Splits a comma-separated list and trims each item.
pub fn split_list(s: &str) -> (r: Vec<String>)
    ensures
        strings(r@) == list_items(s@),
{
    let v = chars_of(s);
    let pieces = split_chars(&v, ',');
    let n = pieces.len();
    let mut r: Vec<String> = Vec::new();
    let mut i: usize = 0;
    while i < n
        invariant
            i <= n == pieces@.len(),
            views(pieces@) == split_on(s@, ','),
            strings(r@) == list_items(s@).take(i as int),
        decreases n - i,
    {
        let t = trim_chars(&pieces[i]);
        let st = string_of(&t);
        let ghost before = strings(r@);
        r.push(st);
        assert(views(pieces@)[i as int] == pieces@[i as int]@);
        assert(strings(r@) =~= before.push(st@));
        assert(list_items(s@).take(i + 1) =~= list_items(s@).take(i as int).push(
            trim(split_on(s@, ',')[i as int]),
        ));
        i = i + 1;
    }
    assert(list_items(s@).take(n as int) =~= list_items(s@));
    r
}

/// What an update writes, derived from the arguments and the workspace.
#[derive(Debug)]
pub struct UpdatePlan {
    /// The description, with `\n` escapes unescaped.
    pub description: Option<String>,
    /// The README body, with `\n` escapes unescaped.
    pub readme_body: Option<String>,
    /// The keywords, split at commas and trimmed.
    pub keywords: Option<Vec<String>>,
    /// The categories, split at commas and trimmed.
    pub categories: Option<Vec<String>>,
    /// The repository URL for the README badges.
    pub repository: String,
    /// The license text for the README's license section.
    pub license_text: String,
    /// Overwrite existing README and doc comments.
    pub force: bool,
}

/// The repository used when the workspace names none.
pub open spec fn default_repository() -> Seq<char> {
    "https://github.com/macalinao/cargo-furnish"@
}

/// The license text used when the workspace names none.
pub open spec fn default_license() -> Seq<char> {
    "Apache-2.0"@
}

fn unescape_opt(o: &Option<String>) -> (r: Option<String>)
    ensures
        opt_string(r) == (match opt_string(*o) {
            Some(s) => Some(unescaped(s)),
            None => None,
        }),
{
    match o {
        Some(s) => Some(unescape_newlines(s.as_str())),
        None => None,
    }
}

fn split_opt(o: &Option<String>) -> (r: Option<Vec<String>>)
    ensures
        opt_strings(r) == (match opt_string(*o) {
            Some(s) => Some(list_items(s)),
            None => None,
        }),
{
    match o {
        Some(s) => Some(split_list(s.as_str())),
        None => None,
    }
}

/// Derives what an update writes: `\n` escapes in the description and the
/// README body are unescaped, keywords and categories are split at commas
/// and trimmed, and the workspace's repository and license are used for the
/// README, with defaults when the workspace has none.
pub fn plan_update(args: &UpdateArgs, ws: &WorkspaceInfo) -> (p: UpdatePlan)
    ensures
        opt_string(p.description) == (match opt_string(args.description) {
            Some(s) => Some(unescaped(s)),
            None => None,
        }),
        opt_string(p.readme_body) == (match opt_string(args.readme) {
            Some(s) => Some(unescaped(s)),
            None => None,
        }),
        opt_strings(p.keywords) == (match opt_string(args.keywords) {
            Some(s) => Some(list_items(s)),
            None => None,
        }),
        opt_strings(p.categories) == (match opt_string(args.categories) {
            Some(s) => Some(list_items(s)),
            None => None,
        }),
        p.repository@ == (match opt_string(ws.repository) {
            Some(r) => r,
            None => default_repository(),
        }),
        p.license_text@ == (match opt_string(ws.license) {
            Some(l) => l,
            None => default_license(),
        }),
        p.force == args.force,
{
    let repository = match &ws.repository {
        Some(r) => r.clone(),
        None => owned("https://github.com/macalinao/cargo-furnish"),
    };
    let license_text = match &ws.license {
        Some(l) => l.clone(),
        None => owned("Apache-2.0"),
    };
    UpdatePlan {
        description: unescape_opt(&args.description),
        readme_body: unescape_opt(&args.readme),
        keywords: split_opt(&args.keywords),
        categories: split_opt(&args.categories),
        repository,
        license_text,
        force: args.force,
    }
}

} // verus!
