use token_scanner::text::{is_whitespace, split_whitespace};

fn words(line: &str) -> Vec<String> {
    split_whitespace(line)
}

#[test]
fn splits_on_single_spaces() {
    assert_eq!(words("1 2 3"), vec!["1", "2", "3"]);
}

#[test]
fn splits_on_runs_of_whitespace() {
    assert_eq!(words("  5   7\n"), vec!["5", "7"]);
    assert_eq!(words("\t a \t\t b\r\n"), vec!["a", "b"]);
}

#[test]
fn split_of_empty_line_is_empty() {
    assert_eq!(words(""), Vec::<String>::new());
}

#[test]
fn split_of_blank_line_is_empty() {
    assert_eq!(words(" \t \r\n"), Vec::<String>::new());
}

#[test]
fn split_of_one_word_is_that_word() {
    assert_eq!(words("hello"), vec!["hello"]);
}

#[test]
fn split_keeps_the_characters_of_each_word() {
    assert_eq!(words("ab,c  -12x  é😀z"), vec!["ab,c", "-12x", "é😀z"]);
}

#[test]
fn split_agrees_with_std_on_unicode_whitespace() {
    let line = "a\u{a0}b\u{1680}c\u{2000}d\u{200a}e\u{2028}f\u{2029}g\u{202f}h\u{205f}i\u{3000}j\u{85}k\u{b}l\u{c}m";
    let expected: Vec<String> = line.split_whitespace().map(String::from).collect();
    assert_eq!(expected.len(), 13);
    assert_eq!(words(line), expected);
}

#[test]
fn zero_width_space_does_not_split() {
    assert_eq!(words("a\u{200b}b"), vec!["a\u{200b}b"]);
    assert_eq!(words("a\u{180e}b"), vec!["a\u{180e}b"]);
    assert_eq!(words("a\u{feff}b"), vec!["a\u{feff}b"]);
}

#[test]
fn is_whitespace_agrees_with_std_on_every_char() {
    let mut c = 0u32;
    let mut count = 0;
    while c <= 0x10ffff {
        if let Some(ch) = char::from_u32(c) {
            assert_eq!(is_whitespace(ch), ch.is_whitespace(), "U+{:04X}", c);
            if is_whitespace(ch) {
                count += 1;
            }
        }
        c += 1;
    }
    assert_eq!(count, 25);
}

#[test]
fn is_whitespace_on_common_chars() {
    assert!(is_whitespace(' '));
    assert!(is_whitespace('\n'));
    assert!(is_whitespace('\t'));
    assert!(is_whitespace('\r'));
    assert!(!is_whitespace('a'));
    assert!(!is_whitespace('0'));
    assert!(!is_whitespace('-'));
    assert!(!is_whitespace('\0'));
}
