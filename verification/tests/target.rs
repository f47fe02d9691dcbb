use morris::target::{find_target_line, normalize, replace_line, unescape};

#[test]
fn test_find_target_line_exact() {
    let lines = vec!["fn a() {}", "    let x = 1;", "}"];
    assert_eq!(find_target_line(&lines, 2, "    let x = 1;"), Some(2));
}

#[test]
fn test_find_target_line_trimmed() {
    let lines = vec!["fn a() {}", "    let x = 1;", "}"];
    assert_eq!(find_target_line(&lines, 2, "let x = 1;"), Some(2));
}

#[test]
fn test_find_target_line_fuzzy() {
    let lines = vec![
        "a", "b", "c", "d", "e", "f", "g", "h", "i", "j", "target", "l",
    ];
    // Looking at line 3 but content is at line 11 (within ±10)
    assert_eq!(find_target_line(&lines, 3, "target"), Some(11));
}

#[test]
fn test_find_target_line_not_found() {
    let lines = vec!["a", "b", "c"];
    assert_eq!(find_target_line(&lines, 2, "nonexistent"), None);
}

#[test]
fn test_find_target_line_out_of_range() {
    let lines = vec!["a", "b"];
    assert_eq!(find_target_line(&lines, 0, "a"), None);
    assert_eq!(find_target_line(&lines, 3, "a"), None);
}

#[test]
fn test_find_target_line_last_line() {
    let lines = vec!["a", "b", "c"];
    assert_eq!(find_target_line(&lines, 3, "c"), Some(3));
}

#[test]
fn test_find_target_line_fuzzy_boundary() {
    // Target exactly 10 lines above the hint — must still find it
    let mut lines = vec!["x"; 21];
    lines[10] = "target"; // line 11
    assert_eq!(find_target_line(&lines, 1, "target"), Some(11));

    // Target exactly 10 lines below the hint — must still find it
    let mut lines2 = vec!["x"; 25];
    lines2[1] = "target"; // line 2
    assert_eq!(find_target_line(&lines2, 12, "target"), Some(2));

    // Target 11 lines away — outside window, must NOT find it
    let mut lines3 = vec!["x"; 25];
    lines3[0] = "target"; // line 1
    assert_eq!(find_target_line(&lines3, 12, "target"), None);
}

#[test]
fn named_line_wins_over_earlier_ones() {
    let lines = vec!["same", "same", "same"];
    assert_eq!(find_target_line(&lines, 3, "same"), Some(3));
}

#[test]
fn first_line_of_the_window_wins() {
    let lines = vec!["other", "same", "hint", "same"];
    assert_eq!(find_target_line(&lines, 3, "same"), Some(2));
}

#[test]
fn no_lines_at_all() {
    let lines: Vec<&str> = Vec::new();
    assert_eq!(find_target_line(&lines, 1, "a"), None);
    assert_eq!(find_target_line(&lines, usize::MAX, "a"), None);
}

#[test]
fn escaped_quotes_compare_equal() {
    let lines = vec!["  println!(\"it's\");"];
    assert_eq!(
        find_target_line(&lines, 1, "println!(\\\"it\\'s\\\");"),
        Some(1)
    );
}

#[test]
fn white_space_around_the_expected_line_is_ignored() {
    let lines = vec!["a", "\tb\u{a0}"];
    assert_eq!(find_target_line(&lines, 1, "\n b \r"), Some(2));
    assert_eq!(find_target_line(&lines, 1, "b"), Some(2));
}

#[test]
fn unescaping_takes_out_backslashes_before_quotes_only() {
    assert_eq!(unescape("\\\"a\\n\\\\\"", '"'), "\"a\\n\\\"");
    assert_eq!(unescape("\\", '"'), "\\");
    assert_eq!(unescape("", '"'), "");
    for s in ["\\\"", "\\\\\"", "a\\'b", "\\\"\\\"", "\\\\", "\"\\"] {
        assert_eq!(unescape(s, '"'), s.replace("\\\"", "\""));
        assert_eq!(
            normalize(s),
            s.trim().replace("\\\"", "\"").replace("\\'", "'")
        );
    }
}

#[test]
fn one_line_is_replaced() {
    let lines = vec!["a", "b", "c"];
    assert_eq!(replace_line(&lines, 2, "B"), "a\nB\nc");
    assert_eq!(replace_line(&lines, 1, ""), "\nb\nc");
    assert_eq!(replace_line(&["only"], 1, "new"), "new");
}
