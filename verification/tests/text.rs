use helixrack::text::{
    decimal_text, eq_ignore_ascii_case, parse_usize, signed_decimal_text, split_once, trim,
};

#[test]
fn letter_case_is_ignored_for_ascii_letters_only() {
    assert!(eq_ignore_ascii_case("Content-Length", "cONTENT-lENGTH"));
    assert!(eq_ignore_ascii_case("", ""));
    assert!(!eq_ignore_ascii_case("a", "ab"));
    assert!(!eq_ignore_ascii_case("ab", "a"));
    assert!(!eq_ignore_ascii_case("\u{c4}", "\u{e4}"));
    assert!(!eq_ignore_ascii_case("[", "{"));
    assert!(!eq_ignore_ascii_case("@", "`"));
}

#[test]
fn comparing_agrees_with_the_standard_library() {
    let samples = ["", "HEAD", "head", "Head ", "k\u{212a}", "kk", "KK", "\u{e9}A", "\u{e9}a"];
    for a in samples {
        for b in samples {
            assert_eq!(eq_ignore_ascii_case(a, b), a.eq_ignore_ascii_case(b), "{a:?} {b:?}");
        }
    }
}

#[test]
fn trimming_agrees_with_the_standard_library_on_every_character() {
    for code in 0..=0x10FFFF_u32 {
        if let Some(c) = char::from_u32(code) {
            let text = format!("{c}x y{c}");
            assert_eq!(trim(&text), text.trim(), "U+{code:04X}");
        }
    }
    assert_eq!(trim(" \t "), "");
    assert_eq!(trim(""), "");
    assert_eq!(trim("  a b  "), "a b");
}

#[test]
fn targets_are_parted_at_the_first_question_mark() {
    assert_eq!(split_once("/a?b?c", '?'), ("/a", "b?c"));
    assert_eq!(split_once("/a", '?'), ("/a", ""));
    assert_eq!(split_once("?", '?'), ("", ""));
    assert_eq!(split_once("/\u{e9}\u{20ac}?\u{1f600}", '?'), ("/\u{e9}\u{20ac}", "\u{1f600}"));
    assert_eq!(split_once("", '?'), ("", ""));
}

#[test]
fn numbers_are_written_in_decimal() {
    for n in [0, 7, 10, 99, 100, 65535, 10485760, u64::MAX] {
        assert_eq!(decimal_text(n), n.to_string());
    }
    for n in [0, 5, -1, -10, i64::MIN, i64::MAX] {
        assert_eq!(signed_decimal_text(n), n.to_string());
    }
}

#[test]
fn numbers_are_read_as_the_standard_library_reads_them() {
    let samples = [
        "0", "7", "007", "+3", "42", "", "+", "-1", "-0", "++1", "1 ", " 1", "1_000", "0x10",
        "\u{0661}", "18446744073709551615", "18446744073709551616", "99999999999999999999999",
    ];
    for sample in samples {
        assert_eq!(parse_usize(sample), sample.parse::<usize>().ok(), "{sample:?}");
    }
}

#[test]
fn numbers_read_back_as_they_were_written() {
    for n in [0, 1, 9, 10, 12345, usize::MAX] {
        assert_eq!(parse_usize(&decimal_text(n as u64)), Some(n));
    }
}
