use deploycli::text::{check_space, chars_of, matches_token};

#[test]
fn characters_round_trip() {
    let chars = chars_of("h\u{e9}llo \u{4e16}");
    assert_eq!(chars, vec!['h', '\u{e9}', 'l', 'l', 'o', ' ', '\u{4e16}']);
    assert_eq!(chars_of(""), Vec::<char>::new());
}

#[test]
fn white_space_is_what_std_says() {
    for code in 0u32..0x3100 {
        if let Some(c) = char::from_u32(code) {
            assert_eq!(check_space(c), c.is_whitespace(), "U+{:04X}", code);
        }
    }
    assert!(!check_space('\u{feff}'));
}

#[test]
fn token_matching_trims_and_ignores_case() {
    assert!(matches_token("y", "y"));
    assert!(matches_token("  Y\r\n", "y"));
    assert!(matches_token("\t:Q \n", ":q"));
    assert!(matches_token("\u{3000}y\u{a0}", "y"));
    assert!(!matches_token("yes", "y"));
    assert!(!matches_token("", "y"));
    assert!(!matches_token("   ", "y"));
    assert!(!matches_token("y y", "y"));
    assert!(!matches_token("n", "y"));
    assert!(matches_token("", ""));
}

#[test]
fn matching_agrees_with_std() {
    let lines = ["y", " Y ", "yes", "", "\n", ":q", " :Q\n", ":qq", "q:", "\u{e9}", "Y\u{301}"];
    let tokens = ["y", ":q", "\u{e9}"];
    for line in lines {
        for token in tokens {
            assert_eq!(
                matches_token(line, token),
                line.trim().eq_ignore_ascii_case(token),
                "{:?} against {:?}",
                line,
                token
            );
        }
    }
}
