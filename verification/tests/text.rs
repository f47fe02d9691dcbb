use morris::blocks::{find_block_end, skip_element};
use morris::numerals::{decimal_string, push_right_aligned};
use morris::text::{
    as_strs, chars_of, contains, is_white_space, join_lines, lines_of, same_text,
    string_of, trim,
};

const SAMPLES: [&str; 16] = [
    "",
    " ",
    "\n",
    "\r\n",
    "\r",
    "a",
    "a\n",
    "a\r\n",
    "a\r",
    "a\n\nb",
    "a\r\r\nb\r",
    "  a b\t\n",
    "\u{3000}é→\u{2028}",
    "\n\n\n",
    "x\ny\r\nz",
    "\u{200b}zero width\u{feff}",
];

#[test]
fn white_space_is_that_of_unicode() {
    for code in 0..=0x10ffffu32 {
        if let Some(c) = char::from_u32(code) {
            assert_eq!(is_white_space(c), c.is_whitespace(), "{code:x}");
        }
    }
}

#[test]
fn trimming_matches_std() {
    for s in SAMPLES {
        assert_eq!(trim(s), s.trim());
        assert_eq!(trim(trim(s)), trim(s));
    }
}

#[test]
fn lines_match_std() {
    for s in SAMPLES {
        assert_eq!(lines_of(s), s.lines().collect::<Vec<_>>(), "{s:?}");
    }
}

#[test]
fn joined_lines_split_again() {
    let lines = ["a", "", "  b", "c"];
    let text = join_lines(&lines);
    assert_eq!(text, "a\n\n  b\nc");
    assert_eq!(lines_of(&text), lines);
    assert_eq!(join_lines(&[]), "");
}

#[test]
fn characters_and_back() {
    let chars = chars_of("aé→🧬");
    assert_eq!(chars, ['a', 'é', '→', '🧬']);
    assert_eq!(string_of(&chars, 1, 3), "é→");
    let owned = vec!["x".to_string(), "y".to_string()];
    assert_eq!(as_strs(&owned), ["x", "y"]);
}

#[test]
fn comparing_and_searching() {
    assert!(same_text("abc", "abc"));
    assert!(!same_text("abc", "abd"));
    assert!(!same_text("abc", "ab"));
    for s in ["", "a", "aa", "abab", "ab\n}", "x"] {
        for pat in ["", "a", "ab", "ba", "\n}", "abc"] {
            assert_eq!(contains(s, pat), s.contains(pat));
        }
    }
}

#[test]
fn numbers_in_decimal() {
    for n in [0, 7, 10, 42, 999, 1000, 9999, 10000, usize::MAX] {
        assert_eq!(decimal_string(n), n.to_string());
        let mut s = "x".to_string();
        push_right_aligned(&mut s, n, 4);
        assert_eq!(s, format!("x{n:>4}"));
    }
}

#[test]
fn elements_of_rust_code() {
    for (code, len) in [
        ("a b", 1),
        ("{ }", 1),
        ("/ b", 1),
        ("// a\nb", 4),
        ("// a", 4),
        ("/* a */ b", 7),
        ("/* /* */ */b", 11),
        ("/* a", 4),
        ("\"a\" b", 3),
        ("\"\\\"}\" b", 5),
        ("\"a", 2),
        ("\"a\\", 3),
        ("'a' b", 3),
        ("'a b'", 1),
        ("'\\'' b", 4),
        ("'\n'", 1),
        ("r\"\\\" b", 4),
        ("r#\"a\"b\"# c", 8),
        ("r#a", 1),
        ("r", 1),
    ] {
        assert_eq!(skip_element(&chars_of(code), 0), len, "{code}");
    }
}

#[test]
fn ends_of_blocks() {
    assert_eq!(find_block_end(&chars_of("{ {} } }"), 1), Some(5));
    assert_eq!(find_block_end(&chars_of("{ '}' }"), 1), Some(6));
    assert_eq!(find_block_end(&chars_of("{ {}"), 1), None);
}
