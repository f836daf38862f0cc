use project_context::text::{
    chars_of, decimal_string, has_char, has_part, has_prefix, is_white_space, join, same_text,
    split, string_of, trim, trim_by, Edge,
};

fn trimmed(value: &str) -> String {
    string_of(trim(&chars_of(value)))
}

#[test]
fn white_space_is_what_std_calls_white_space() {
    for code in 0..=0x10ffff_u32 {
        if let Some(c) = char::from_u32(code) {
            assert_eq!(is_white_space(c), c.is_whitespace(), "U+{code:04X}");
        }
    }
}

#[test]
fn trimming_cuts_white_space_off_both_ends() {
    for value in ["", " ", " a b ", "\u{3000}x\u{2028}", "\t\r\nq\u{b}", "plain", "\u{200b}x"] {
        assert_eq!(trimmed(value), value.trim());
        let slashed = string_of(trim_by(&chars_of(value), Edge::Slash));
        assert_eq!(slashed, value.trim_matches('/'));
    }
    assert_eq!(string_of(trim_by(&chars_of("//a/b/"), Edge::Slash)), "a/b");
}

#[test]
fn splitting_and_joining_undo_each_other() {
    for value in ["", "/", "a", "a/b", "/a//b/"] {
        let parts: Vec<String> =
            split(&chars_of(value), '/').iter().map(|part| string_of(part)).collect();
        assert_eq!(parts, value.split('/').collect::<Vec<_>>());
        assert_eq!(join(&parts, "/"), value);
    }
    assert_eq!(join(&vec!["a".to_owned(), "b".to_owned(), "".to_owned()], ", "), "a, b, ");
}

#[test]
fn searching_finds_what_std_finds() {
    let samples = ["", "a", "ab", "ba", "abab", "é", "bé"];
    for value in samples {
        for part in samples {
            let (v, p) = (chars_of(value), chars_of(part));
            assert_eq!(has_part(&v, &p), value.contains(part));
            assert_eq!(has_prefix(&v, &p), value.starts_with(part));
            assert_eq!(same_text(value, part), value == part);
        }
        assert_eq!(has_char(&chars_of(value), 'b'), value.contains('b'));
    }
}

#[test]
fn numbers_are_written_in_decimal() {
    for n in [0, 7, 10, 1009, 1048576, u128::from(u64::MAX), u128::MAX] {
        assert_eq!(decimal_string(n), n.to_string());
    }
}
