use duvet::normalize_quote;

#[test]
fn test_quote_normalizing() {
    let sample = r"
        A
        B
        C
        ";
    assert_eq!(normalize_quote(sample), "A B C",);
}

#[test]
fn test_quote_normalizing_with_empty_lines() {
    let sample = r"
            A:

            * B

            * C
              D
        ";
    assert_eq!(normalize_quote(sample), "A: * B * C D",);
}

#[test]
fn normalizing_twice_changes_nothing() {
    for s in [
        "",
        "   ",
        "A",
        "  A\n\n\n  B  \n",
        "x  y\n\tz\r\n",
        "\u{3000}wide\u{3000}\n\u{a0}nbsp",
    ] {
        let once = normalize_quote(s);
        assert_eq!(normalize_quote(&once), once);
    }
}

#[test]
fn blank_lines_only_separate() {
    assert_eq!(normalize_quote("A\n\nB"), "A B");
    assert_eq!(normalize_quote("A\nB"), "A B");
    assert_eq!(normalize_quote("\n\n\nA\n\n\n"), "A");
}

#[test]
fn lines_are_trimmed_but_inner_spaces_kept() {
    assert_eq!(normalize_quote("   A  \n  B  "), "A B");
    assert_eq!(normalize_quote("  A   B  \n C"), "A   B C");
}

#[test]
fn empty_and_blank_quotes_normalize_to_empty() {
    assert_eq!(normalize_quote(""), "");
    assert_eq!(normalize_quote(" \n\t\n  "), "");
}

#[test]
fn unicode_white_space_and_carriage_returns_are_trimmed() {
    assert_eq!(normalize_quote("\u{3000}A\u{2003}\r\nB\r\n"), "A B");
    assert_eq!(normalize_quote("é\n ü "), "é ü");
}
