use cargo_furnish::check::check_summary;

#[test]
fn check_summary_plain() {
    assert_eq!(check_summary(1, 0, "3ms", false), "Checked 1 crate in 3ms: no issues found.");
    assert_eq!(check_summary(12, 1, "1s", false), "\nChecked 12 crates in 1s: 1 issue.");
    assert_eq!(check_summary(0, 105, "0ns", false), "\nChecked 0 crates in 0ns: 105 issues.");
}

#[test]
fn check_summary_colored() {
    assert_eq!(
        check_summary(2, 0, "5ms", true),
        "\x1b[1;32mChecked\x1b[0m 2 crates in 5ms: no issues found."
    );
    assert_eq!(
        check_summary(1, 3, "5ms", true),
        "\n\x1b[1;31mChecked\x1b[0m 1 crate in 5ms: \x1b[1m3 issues\x1b[0m."
    );
}
