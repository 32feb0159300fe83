//! `cargo furnish check`: the closing summary line.

use vstd::prelude::*;

use crate::text::{push_char, push_str};

verus! {

/// `ansi_term_styles::BOLD`, the escape that turns bold on.
#[verifier::external_body]
fn style_bold() -> (r: &'static str)
    ensures
        r@ == "\x1b[1m"@,
{
    ansi_term_styles::BOLD
}

/// `ansi_term_styles::RESET`, the escape that resets all attributes.
#[verifier::external_body]
fn style_reset() -> (r: &'static str)
    ensures
        r@ == "\x1b[0m"@,
{
    ansi_term_styles::RESET
}

/// `ansi_term_styles::BOLD_RED`, the escape for bold red text.
#[verifier::external_body]
fn style_bold_red() -> (r: &'static str)
    ensures
        r@ == "\x1b[1;31m"@,
{
    ansi_term_styles::BOLD_RED
}

/// `ansi_term_styles::BOLD_GREEN`, the escape for bold green text.
#[verifier::external_body]
fn style_bold_green() -> (r: &'static str)
    ensures
        r@ == "\x1b[1;32m"@,
{
    ansi_term_styles::BOLD_GREEN
}

/// The decimal digit for `d < 10`.
pub open spec fn digit(d: nat) -> char {
    if d == 0 { '0' }
    else if d == 1 { '1' }
    else if d == 2 { '2' }
    else if d == 3 { '3' }
    else if d == 4 { '4' }
    else if d == 5 { '5' }
    else if d == 6 { '6' }
    else if d == 7 { '7' }
    else if d == 8 { '8' }
    else { '9' }
}

/// The decimal representation of `n`, without leading zeros.
pub open spec fn decimal(n: nat) -> Seq<char>
    decreases n,
{
    if n < 10 {
        seq![digit(n)]
    } else {
        decimal(n / 10).push(digit(n % 10))
    }
}

fn digit_char(d: usize) -> (c: char)
    requires
        d < 10,
    ensures
        c == digit(d as nat),
{
    if d == 0 { '0' }
    else if d == 1 { '1' }
    else if d == 2 { '2' }
    else if d == 3 { '3' }
    else if d == 4 { '4' }
    else if d == 5 { '5' }
    else if d == 6 { '6' }
    else if d == 7 { '7' }
    else if d == 8 { '8' }
    else { '9' }
}

/// Appends the decimal representation of `n`.
pub fn push_decimal(out: &mut String, n: usize)
    ensures
        final(out)@ == old(out)@ + decimal(n as nat),
    decreases n,
{
    if n < 10 {
        push_char(out, digit_char(n));
        assert(out@ =~= old(out)@ + decimal(n as nat));
    } else {
        push_decimal(out, n / 10);
        push_char(out, digit_char(n % 10));
        assert(out@ =~= old(out)@ + decimal(n as nat));
    }
}

/// `"s"` unless the count is one.
pub open spec fn plural(n: nat) -> Seq<char> {
    if n == 1 {
        Seq::empty()
    } else {
        seq!['s']
    }
}

/// The summary printed after checking `crate_count` crates in `elapsed`
/// with `total` issues found, with terminal colors when `color` holds.
pub open spec fn summary_text(crate_count: nat, total: nat, elapsed: Seq<char>, color: bool) -> Seq<
    char,
> {
    let counted = decimal(crate_count) + " crate"@ + plural(crate_count) + " in "@ + elapsed
        + ": "@;
    if total > 0 {
        let issues = decimal(total) + " issue"@ + plural(total);
        if color {
            "\n"@ + "\x1b[1;31m"@ + "Checked"@ + "\x1b[0m"@ + " "@ + counted + "\x1b[1m"@ + issues
                + "\x1b[0m"@ + "."@
        } else {
            "\n"@ + "Checked"@ + " "@ + counted + issues + "."@
        }
    } else {
        if color {
            "\x1b[1;32m"@ + "Checked"@ + "\x1b[0m"@ + " "@ + counted + "no issues found."@
        } else {
            "Checked"@ + " "@ + counted + "no issues found."@
        }
    }
}

fn push_plural(out: &mut String, n: usize)
    ensures
        final(out)@ == old(out)@ + plural(n as nat),
{
    if n != 1 {
        push_char(out, 's');
    }
    assert(out@ =~= old(out)@ + plural(n as nat));
}

/// The summary line of `cargo furnish check`: how many crates were checked,
/// how long it took, and how many issues were found.
pub fn check_summary(crate_count: usize, total: usize, elapsed: &str, color: bool) -> (r: String)
    ensures
        r@ == summary_text(crate_count as nat, total as nat, elapsed@, color),
{
    let mut counted = String::new();
    push_decimal(&mut counted, crate_count);
    push_str(&mut counted, " crate");
    push_plural(&mut counted, crate_count);
    push_str(&mut counted, " in ");
    push_str(&mut counted, elapsed);
    push_str(&mut counted, ": ");
    let mut out = String::new();
    if total > 0 {
        let mut issues = String::new();
        push_decimal(&mut issues, total);
        push_str(&mut issues, " issue");
        push_plural(&mut issues, total);
        push_str(&mut out, "\n");
        if color {
            push_str(&mut out, style_bold_red());
            push_str(&mut out, "Checked");
            push_str(&mut out, style_reset());
            push_str(&mut out, " ");
            push_str(&mut out, counted.as_str());
            push_str(&mut out, style_bold());
            push_str(&mut out, issues.as_str());
            push_str(&mut out, style_reset());
            push_str(&mut out, ".");
        } else {
            push_str(&mut out, "Checked");
            push_str(&mut out, " ");
            push_str(&mut out, counted.as_str());
            push_str(&mut out, issues.as_str());
            push_str(&mut out, ".");
        }
    } else {
        if color {
            push_str(&mut out, style_bold_green());
            push_str(&mut out, "Checked");
            push_str(&mut out, style_reset());
            push_str(&mut out, " ");
            push_str(&mut out, counted.as_str());
            push_str(&mut out, "no issues found.");
        } else {
            push_str(&mut out, "Checked");
            push_str(&mut out, " ");
            push_str(&mut out, counted.as_str());
            push_str(&mut out, "no issues found.");
        }
    }
    assert(out@ =~= summary_text(crate_count as nat, total as nat, elapsed@, color));
    out
}

/// The number a string of decimal digits denotes.
pub open spec fn digits_value(s: Seq<char>) -> int
    decreases s.len(),
{
    if s.len() == 0 {
        0
    } else {
        digits_value(s.drop_last()) * 10 + (s.last() as int - '0' as int)
    }
}

proof fn lemma_digit_value(d: nat)
    requires
        d < 10,
    ensures
        digit(d) as int - '0' as int == d,
        '0' <= digit(d) <= '9',
{
    assert('0' as int == 48);
    if d == 0 { assert('0' as int == 48); }
    else if d == 1 { assert('1' as int == 49); }
    else if d == 2 { assert('2' as int == 50); }
    else if d == 3 { assert('3' as int == 51); }
    else if d == 4 { assert('4' as int == 52); }
    else if d == 5 { assert('5' as int == 53); }
    else if d == 6 { assert('6' as int == 54); }
    else if d == 7 { assert('7' as int == 55); }
    else if d == 8 { assert('8' as int == 56); }
    else { assert('9' as int == 57); }
}

/// The decimal representation is exact: it is made of the digits `0`-`9`,
/// starts with `0` only for zero itself, and denotes the number.
pub proof fn law_decimal_denotes_number(n: nat)
    ensures
        decimal(n).len() > 0,
        forall|i: int| 0 <= i < decimal(n).len() ==> '0' <= #[trigger] decimal(n)[i] <= '9',
        decimal(n)[0] == '0' ==> n == 0,
        digits_value(decimal(n)) == n,
    decreases n,
{
    if n >= 10 {
        lemma_digit_value(n % 10);
        law_decimal_denotes_number(n / 10);
        let d = decimal(n / 10);
        assert(decimal(n) == d.push(digit(n % 10)));
        assert(decimal(n).drop_last() =~= d);
        assert(decimal(n).last() == digit(n % 10));
        assert(digits_value(decimal(n)) == digits_value(d) * 10 + (digit(n % 10) as int - '0' as int));
        assert(decimal(n)[0] == d[0]);
        assert(n == (n / 10) * 10 + n % 10);
        assert forall|i: int| 0 <= i < decimal(n).len() implies '0' <= #[trigger] decimal(n)[i] <= '9' by {
            if i < d.len() {
                assert(decimal(n)[i] == d[i]);
            }
        }
    } else {
        lemma_digit_value(n);
        assert(seq![digit(n)].drop_last() =~= Seq::<char>::empty());
        assert(seq![digit(n)].last() == digit(n));
        assert(digits_value(Seq::<char>::empty()) == 0);
        assert(decimal(n) == seq![digit(n)]);
        assert(digits_value(seq![digit(n)]) == digits_value(seq![digit(n)].drop_last()) * 10 + (
        digit(n) as int - '0' as int));
    }
}

proof fn lemma_words(crate_count: nat, total: nat)
    ensures
        " crate"@ + plural(crate_count) == (if crate_count == 1 { " crate"@ } else { " crates"@ }),
        " issue"@ + plural(total) == (if total == 1 { " issue"@ } else { " issues"@ }),
{
    reveal_strlit(" crate");
    reveal_strlit(" crates");
    reveal_strlit(" issue");
    reveal_strlit(" issues");
    assert(" crate"@ + plural(crate_count) =~= (if crate_count == 1 { " crate"@ } else { " crates"@ }));
    assert(" issue"@ + plural(total) =~= (if total == 1 { " issue"@ } else { " issues"@ }));
}

proof fn lemma_summary_plain(crate_count: nat, total: nat, elapsed: Seq<char>)
    ensures
        summary_text(crate_count, 0, elapsed, false) == "Checked "@ + decimal(crate_count) + " crate"@
            + plural(crate_count) + " in "@ + elapsed + ": no issues found."@,
        total > 0 ==> summary_text(crate_count, total, elapsed, false) == "\nChecked "@ + decimal(
            crate_count,
        ) + " crate"@ + plural(crate_count) + " in "@ + elapsed + ": "@ + decimal(total) + " issue"@
            + plural(total) + "."@,
{
    reveal_strlit("Checked ");
    reveal_strlit("Checked");
    reveal_strlit(" ");
    reveal_strlit("\n");
    reveal_strlit("\nChecked ");
    reveal_strlit(": ");
    reveal_strlit("no issues found.");
    reveal_strlit(": no issues found.");
    let counted = decimal(crate_count) + " crate"@ + plural(crate_count) + " in "@ + elapsed + ": "@;
    assert(summary_text(crate_count, 0, elapsed, false) =~= "Checked "@ + decimal(crate_count)
        + " crate"@ + plural(crate_count) + " in "@ + elapsed + ": no issues found."@);
    if total > 0 {
        assert(summary_text(crate_count, total, elapsed, false) =~= "\nChecked "@ + decimal(
            crate_count,
        ) + " crate"@ + plural(crate_count) + " in "@ + elapsed + ": "@ + decimal(total)
            + " issue"@ + plural(total) + "."@);
    }
}

proof fn lemma_summary_colored(crate_count: nat, total: nat, elapsed: Seq<char>)
    ensures
        summary_text(crate_count, 0, elapsed, true) == "\x1b[1;32mChecked\x1b[0m "@ + decimal(
            crate_count,
        ) + " crate"@ + plural(crate_count) + " in "@ + elapsed + ": no issues found."@,
        total > 0 ==> summary_text(crate_count, total, elapsed, true) == "\n\x1b[1;31mChecked\x1b[0m "@
            + decimal(crate_count) + " crate"@ + plural(crate_count) + " in "@ + elapsed
            + ": \x1b[1m"@ + decimal(total) + " issue"@ + plural(total) + "\x1b[0m."@,
{
    reveal_strlit("Checked");
    reveal_strlit(" ");
    reveal_strlit("\n");
    reveal_strlit("\x1b[1;32m");
    reveal_strlit("\x1b[1;31m");
    reveal_strlit("\x1b[0m");
    reveal_strlit("\x1b[1m");
    reveal_strlit("\x1b[1;32mChecked\x1b[0m ");
    reveal_strlit("\n\x1b[1;31mChecked\x1b[0m ");
    reveal_strlit(": ");
    reveal_strlit(": \x1b[1m");
    reveal_strlit(".");
    reveal_strlit("\x1b[0m.");
    reveal_strlit("no issues found.");
    reveal_strlit(": no issues found.");
    assert(summary_text(crate_count, 0, elapsed, true) =~= "\x1b[1;32mChecked\x1b[0m "@ + decimal(
        crate_count,
    ) + " crate"@ + plural(crate_count) + " in "@ + elapsed + ": no issues found."@);
    if total > 0 {
        assert(summary_text(crate_count, total, elapsed, true) =~= "\n\x1b[1;31mChecked\x1b[0m "@
            + decimal(crate_count) + " crate"@ + plural(crate_count) + " in "@ + elapsed
            + ": \x1b[1m"@ + decimal(total) + " issue"@ + plural(total) + "\x1b[0m."@);
    }
}

/// The wording of the summary: "crate" and "issue" take an `s` unless their
/// count is exactly one; with no issue the line ends in "no issues found.",
/// otherwise it starts on a fresh line and gives the count of issues; colors
/// wrap "Checked" (green with no issue, red otherwise) and the issue count.
pub proof fn law_summary_wording(crate_count: nat, total: nat, elapsed: Seq<char>)
    ensures
        summary_text(crate_count, 0, elapsed, false) == "Checked "@ + decimal(crate_count) + (if crate_count == 1 {
            " crate"@
        } else {
            " crates"@
        }) + " in "@ + elapsed + ": no issues found."@,
        summary_text(crate_count, 0, elapsed, true) == "\x1b[1;32mChecked\x1b[0m "@ + decimal(crate_count) + (
        if crate_count == 1 {
            " crate"@
        } else {
            " crates"@
        }) + " in "@ + elapsed + ": no issues found."@,
        total > 0 ==> summary_text(crate_count, total, elapsed, false) == "\nChecked "@ + decimal(
            crate_count,
        ) + (if crate_count == 1 {
            " crate"@
        } else {
            " crates"@
        }) + " in "@ + elapsed + ": "@ + decimal(total) + (if total == 1 {
            " issue"@
        } else {
            " issues"@
        }) + "."@,
        total > 0 ==> summary_text(crate_count, total, elapsed, true) == "\n\x1b[1;31mChecked\x1b[0m "@
            + decimal(crate_count) + (if crate_count == 1 {
            " crate"@
        } else {
            " crates"@
        }) + " in "@ + elapsed + ": \x1b[1m"@ + decimal(total) + (if total == 1 {
            " issue"@
        } else {
            " issues"@
        }) + "\x1b[0m."@,
{
    lemma_words(crate_count, total);
    lemma_summary_plain(crate_count, total, elapsed);
    lemma_summary_colored(crate_count, total, elapsed);
    let dc = decimal(crate_count);
    let di = decimal(total);
    let cw: Seq<char> = if crate_count == 1 { " crate"@ } else { " crates"@ };
    let iw: Seq<char> = if total == 1 { " issue"@ } else { " issues"@ };
    let rest = " in "@ + elapsed;
    assert(dc + " crate"@ + plural(crate_count) + rest =~= dc + cw + rest);
    assert(summary_text(crate_count, 0, elapsed, false) =~= "Checked "@ + dc + cw + " in "@
        + elapsed + ": no issues found."@);
    assert(summary_text(crate_count, 0, elapsed, true) =~= "\x1b[1;32mChecked\x1b[0m "@ + dc + cw
        + " in "@ + elapsed + ": no issues found."@);
    if total > 0 {
        assert(di + " issue"@ + plural(total) =~= di + iw);
        assert(summary_text(crate_count, total, elapsed, false) =~= "\nChecked "@ + dc + cw
            + " in "@ + elapsed + ": "@ + di + iw + "."@);
        assert(summary_text(crate_count, total, elapsed, true) =~= "\n\x1b[1;31mChecked\x1b[0m "@
            + dc + cw + " in "@ + elapsed + ": \x1b[1m"@ + di + iw + "\x1b[0m."@);
    }
}

} // verus!
