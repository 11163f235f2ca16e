use semdiff::lines::split_lines;

fn owned(lines: &[&str]) -> Vec<String> {
    lines.iter().map(|line| line.to_string()).collect()
}

#[test]
fn the_empty_text_has_no_line() {
    assert_eq!(split_lines(""), Vec::<String>::new());
}

#[test]
fn a_text_without_terminator_is_one_line() {
    assert_eq!(split_lines("a"), owned(&["a"]));
}

#[test]
fn a_terminator_stays_with_its_line() {
    assert_eq!(split_lines("a\n"), owned(&["a\n"]));
    assert_eq!(split_lines("a\nb"), owned(&["a\n", "b"]));
    assert_eq!(split_lines("a\nb\n"), owned(&["a\n", "b\n"]));
}

#[test]
fn empty_lines_are_lines() {
    assert_eq!(split_lines("\n"), owned(&["\n"]));
    assert_eq!(split_lines("\n\n"), owned(&["\n", "\n"]));
    assert_eq!(split_lines("a\n\nb\n"), owned(&["a\n", "\n", "b\n"]));
}

#[test]
fn carriage_return_and_line_feed_are_one_terminator() {
    assert_eq!(split_lines("a\r\nb\r\n"), owned(&["a\r\n", "b\r\n"]));
    assert_eq!(split_lines("\r\n"), owned(&["\r\n"]));
}

#[test]
fn a_lone_carriage_return_ends_a_line() {
    assert_eq!(split_lines("a\rb"), owned(&["a\r", "b"]));
    assert_eq!(split_lines("a\r"), owned(&["a\r"]));
    assert_eq!(split_lines("\r\r\n\n\r"), owned(&["\r", "\r\n", "\n", "\r"]));
}

#[test]
fn mixed_terminators() {
    assert_eq!(
        split_lines("first\nsecond\rthird\r\nfourth\nlast"),
        owned(&["first\n", "second\r", "third\r\n", "fourth\n", "last"])
    );
}

#[test]
fn lines_keep_characters_beyond_ascii() {
    assert_eq!(split_lines("häßlich\n日本語\r\n🙂"), owned(&["häßlich\n", "日本語\r\n", "🙂"]));
}

#[test]
fn the_lines_joined_are_the_text() {
    for text in ["", "a", "a\n", "a\r\nb\rc\n\nd", "\n\r\n\r", "x\u{2028}y\n"] {
        assert_eq!(split_lines(text).concat(), text);
    }
}
