use token_scanner::{LineSource, TextSource};

fn lines(text: &str) -> Vec<String> {
    let mut source = TextSource::new(text);
    let mut found = Vec::new();
    while let Some(line) = source.read_line() {
        found.push(line);
    }
    assert_eq!(source.read_line(), None);
    found
}

#[test]
fn empty_text_has_no_line() {
    assert_eq!(lines(""), Vec::<String>::new());
}

#[test]
fn lines_keep_their_line_feed() {
    assert_eq!(lines("3\n1 2\n30 40\n"), vec!["3\n", "1 2\n", "30 40\n"]);
}

#[test]
fn last_line_may_lack_a_line_feed() {
    assert_eq!(lines("a\nb"), vec!["a\n", "b"]);
    assert_eq!(lines("only"), vec!["only"]);
}

#[test]
fn empty_lines_are_lines() {
    assert_eq!(lines("\n\nx\n\n"), vec!["\n", "\n", "x\n", "\n"]);
}

#[test]
fn carriage_return_ends_no_line() {
    assert_eq!(lines("a\r\nb\rc\n"), vec!["a\r\n", "b\rc\n"]);
}

#[test]
fn lines_agree_with_std() {
    let text = "1 2\n\n é😀 \n\u{2028}x\n  \nlast";
    let mut reader = text.as_bytes();
    let mut expected = Vec::new();
    loop {
        let mut line = String::new();
        let n = std::io::BufRead::read_line(&mut reader, &mut line).unwrap();
        if n == 0 {
            break;
        }
        expected.push(line);
    }
    assert_eq!(lines(text), expected);
}

#[test]
fn lines_put_together_are_the_text() {
    let text = "a b\n\nc\r\n d";
    assert_eq!(lines(text).concat(), text);
}
