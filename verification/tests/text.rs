use osrs_random::text::{
    blank, eq_ignore_case, fits_bytes, less, parse_unsigned, split_words, squeeze, trim,
};

#[test]
fn whitespace_is_collapsed_and_trimmed() {
    assert_eq!(squeeze("  Skill \n\t 25  "), "Skill 25");
    assert_eq!(squeeze("\u{a0}a\u{2003}b\u{3000}"), "a b");
    assert_eq!(squeeze(""), "");
    assert_eq!(trim(" \n x y \t"), "x y");
    assert_eq!(split_words(" a  bb\tc "), vec!["a", "bb", "c"]);
    assert!(blank(" \u{85}\u{2028}"));
    assert!(!blank(" x "));
}

#[test]
fn numbers_parse_like_str_parse() {
    assert_eq!(parse_unsigned("4294967295", u32::MAX as u64), Some(4294967295));
    assert_eq!(parse_unsigned("4294967296", u32::MAX as u64), None);
    assert_eq!(parse_unsigned("+7", 100), Some(7));
    assert_eq!(parse_unsigned("007", 100), Some(7));
    assert_eq!(parse_unsigned("-0", 100), None);
    assert_eq!(parse_unsigned("+", 100), None);
    assert_eq!(parse_unsigned("", 100), None);
    assert_eq!(parse_unsigned("1 ", 100), None);
}

#[test]
fn comparisons_follow_code_points() {
    assert!(less("Zulrah", "abyssal"));
    assert!(less("a", "ab"));
    assert!(!less("ab", "ab"));
    assert!(less("é", "😀"));
    assert!(eq_ignore_case("ReSt", "rEST"));
    assert!(!eq_ignore_case("É", "é"));
    assert!(fits_bytes("ééé", 6));
    assert!(!fits_bytes("ééé", 5));
}
