use osu_extract::sanitize::escape_string;
use osu_extract::text::{chars_of, find_char, range_equals, range_to_string, same_text, trim_range, trimmed, white_space};

#[test]
fn printable_ascii_is_kept() {
    assert_eq!(escape_string("Foo Bar - 123 (TV Size) [a/b].mp3"), "Foo Bar - 123 (TV Size) [a/b].mp3");
    assert_eq!(escape_string(""), "");
    assert_eq!(escape_string(" ~"), " ~");
}

#[test]
fn quotes_and_backslash_are_escaped() {
    assert_eq!(escape_string("'"), "\\'");
    assert_eq!(escape_string("\""), "\\\"");
    assert_eq!(escape_string("\\"), "\\\\");
    assert_eq!(escape_string("a\"b\\c'd"), "a\\\"b\\\\c\\'d");
}

#[test]
fn control_characters_are_escaped() {
    assert_eq!(escape_string("\t"), "\\t");
    assert_eq!(escape_string("\r"), "\\r");
    assert_eq!(escape_string("\n"), "\\n");
    assert_eq!(escape_string("\u{0}"), "\\u{0}");
    assert_eq!(escape_string("\u{1f}"), "\\u{1f}");
    assert_eq!(escape_string("\u{7f}"), "\\u{7f}");
    assert_eq!(escape_string("\u{b}"), "\\u{b}");
}

#[test]
fn other_characters_become_code_points() {
    assert_eq!(escape_string("\u{e9}"), "\\u{e9}");
    assert_eq!(escape_string("\u{2764}"), "\\u{2764}");
    assert_eq!(escape_string("\u{10ffff}"), "\\u{10ffff}");
    assert_eq!(escape_string("\u{100}"), "\\u{100}");
    assert_eq!(escape_string("a\u{3042}b"), "a\\u{3042}b");
}

#[test]
fn agrees_with_the_standard_escape_on_every_character() {
    let mut code: u32 = 0;
    while code <= 0x10ffff {
        let mut chunk = String::new();
        let end = code + 0x1000;
        while code < end {
            if let Some(c) = char::from_u32(code) {
                chunk.push(c);
            }
            code += 1;
        }
        let expected: String = chunk.escape_default().collect();
        assert_eq!(escape_string(&chunk), expected);
    }
}

#[test]
fn escaped_text_is_printable() {
    let escaped = escape_string("\u{0}a\u{7f}\u{80}\u{2028}\n\r\t\u{10ffff}z");
    assert!(escaped.chars().all(|c| (' '..='~').contains(&c)));
}

#[test]
fn escaping_adds_no_slash() {
    let escaped = escape_string("\u{2f00}\u{2215}\u{ff0f} .. \u{0}\t\"\\");
    assert!(!escaped.contains('/'));
    assert_eq!(escape_string("a/b").matches('/').count(), 1);
}

#[test]
fn escaping_twice_is_not_escaping_once() {
    assert_eq!(escape_string(&escape_string("\n")), "\\\\n");
}

#[test]
fn white_space_agrees_with_the_standard_property() {
    let mut code: u32 = 0;
    while code <= 0x10ffff {
        if let Some(c) = char::from_u32(code) {
            assert_eq!(white_space(c), c.is_whitespace(), "U+{:X}", code);
        }
        code += 1;
    }
}

#[test]
fn trimmed_agrees_with_the_standard_trim() {
    for text in ["", " ", "a", " a", "a ", "  a b  ", "\t\r\n x \u{a0}\u{3000}", "\u{85}\u{1680}\u{2000}\u{200a}\u{2028}\u{2029}\u{202f}\u{205f}", "\u{200b}a\u{200b}", " \u{0} "] {
        assert_eq!(trimmed(text), text.trim());
    }
    assert_eq!(trimmed("  a b  "), "a b");
    assert_eq!(trimmed("\u{200b} "), "\u{200b}");
}

#[test]
fn chars_of_gives_the_characters() {
    assert_eq!(chars_of("a\u{e9}\u{10ffff}"), vec!['a', '\u{e9}', '\u{10ffff}']);
    assert_eq!(chars_of(""), Vec::<char>::new());
}

#[test]
fn find_char_finds_the_first() {
    let s = chars_of("ab:cd:ef");
    assert_eq!(find_char(&s, 0, 8, ':'), 2);
    assert_eq!(find_char(&s, 3, 8, ':'), 5);
    assert_eq!(find_char(&s, 6, 8, ':'), 8);
    assert_eq!(find_char(&s, 0, 2, ':'), 2);
    assert_eq!(find_char(&s, 2, 2, ':'), 2);
}

#[test]
fn trim_range_gives_bounds() {
    let s = chars_of("k:  v w  ;");
    assert_eq!(trim_range(&s, 2, 9), (4, 7));
    assert_eq!(trim_range(&s, 2, 4), (4, 4));
    assert_eq!(trim_range(&s, 0, 10), (0, 10));
}

#[test]
fn ranges_compare_and_copy() {
    let s = chars_of("Title:x");
    assert!(range_equals(&s, 0, 5, &chars_of("Title")));
    assert!(!range_equals(&s, 0, 5, &chars_of("Titel")));
    assert!(!range_equals(&s, 0, 4, &chars_of("Title")));
    assert!(range_equals(&s, 3, 3, &chars_of("")));
    assert_eq!(range_to_string(&s, 6, 7), "x");
    assert_eq!(range_to_string(&s, 2, 2), "");
    assert!(same_text("osu", "osu"));
    assert!(!same_text("osu", "osU"));
    assert!(!same_text("osu", "os"));
}
