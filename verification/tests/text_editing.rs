use flyline::context::SubString;
use flyline::number::{parse_usize, to_decimal, to_signed_decimal};
use flyline::state::App;
use flyline::textbuffer::{sanitize, TextBuffer};

fn sub(s: &str, start: usize) -> SubString {
    SubString { s: s.to_string(), start }
}

fn app(text: &str) -> App {
    App::new(&Some(text.to_string()), 0, 0, None, None)
}

#[test]
fn a_new_buffer_has_its_cursor_at_the_end() {
    let b = TextBuffer::new("héllo");
    assert_eq!(b.buffer(), "héllo");
    assert_eq!(b.cursor, 5);
    assert_eq!(b.cursor_byte_pos(), 6);
    assert_eq!(b.selection, None);
}

#[test]
fn replacing_a_word_puts_the_cursor_behind_it() {
    let mut b = TextBuffer::new("café option 日本語");
    let new = b.replace_word_under_cursor("coffee", &sub("option", 6)).unwrap();
    assert_eq!(new, sub("coffee", 6));
    assert_eq!(b.buffer(), "café coffee 日本語");
    assert_eq!(b.cursor, 11);
    // The new word can be replaced in turn.
    assert!(b.replace_word_under_cursor("x", &new).is_some());
    assert_eq!(b.buffer(), "café x 日本語");
}

#[test]
fn a_word_that_is_not_there_is_not_replaced() {
    let mut b = TextBuffer::new("café option");
    for wrong in [sub("option", 5), sub("option", 4), sub("optiona", 6), sub("x", 6), sub("", 99)] {
        assert_eq!(b.replace_word_under_cursor("y", &wrong), None);
        assert_eq!(b.buffer(), "café option");
        assert_eq!(b.cursor, 11);
    }
}

#[test]
fn line_ends_are_written_as_line_feeds() {
    assert_eq!(sanitize("a\r\nb\rc\n\r"), "a\nb\nc\n\n");
    assert_eq!(sanitize("plain"), "plain");
    let mut b = TextBuffer::new("ab");
    b.cursor = 1;
    b.insert_str("x\r\ny");
    assert_eq!(b.buffer(), "ax\nyb");
    assert_eq!(b.cursor, 4);
    b.insert_newline();
    assert_eq!(b.buffer(), "ax\ny\nb");
    assert_eq!(b.cursor, 5);
}

#[test]
fn deleting_a_selection() {
    let mut b = TextBuffer::new("hello world");
    b.selection = Some(5);
    assert_eq!(b.selection_range(), Some((5, 11)));
    assert!(b.delete_selection());
    assert_eq!(b.buffer(), "hello");
    assert_eq!((b.cursor, b.selection), (5, None));

    // The anchor may lie behind the cursor.
    let mut b = TextBuffer::new("hello world");
    b.cursor = 2;
    b.selection = Some(4);
    assert!(b.delete_selection());
    assert_eq!(b.buffer(), "heo world");
    assert_eq!(b.cursor, 2);

    // Nothing is selected where the anchor is the cursor, or lies outside.
    for anchor in [11usize, 40] {
        let mut b = TextBuffer::new("hello world");
        b.selection = Some(anchor);
        assert!(!b.delete_selection());
        assert_eq!((b.buffer(), b.selection), ("hello world", None));
    }
}

#[test]
fn numbers_are_read_and_written() {
    assert_eq!(to_decimal(0), "0");
    assert_eq!(to_decimal(18446744073709551615), "18446744073709551615");
    assert_eq!(to_signed_decimal(-17), "-17");
    assert_eq!(to_signed_decimal(i32::MIN), "-2147483648");
    assert_eq!(to_signed_decimal(127), "127");
    assert_eq!(parse_usize("0042"), Some(42));
    assert_eq!(parse_usize("+7"), Some(7));
    for wrong in ["", "+", "-1", "1a", " 1", "99999999999999999999999"] {
        assert_eq!(parse_usize(wrong), None, "{wrong:?}");
    }
    for n in [0u64, 9, 10, 99, 100, 123456789] {
        assert_eq!(parse_usize(&to_decimal(n)), Some(n as usize));
    }
}

#[test]
fn a_command_sees_the_text_in_variables() {
    let mut a = app("héllo");
    a.buffer.cursor = 2;
    let vars = a.buffer.readline_vars();
    assert_eq!((vars.line.as_str(), vars.point.as_str()), ("héllo", "2"));
    assert_eq!((vars.mark.as_str(), vars.argument.as_str()), ("2", "1"));
    a.buffer.selection = Some(4);
    assert_eq!(a.buffer.readline_vars().mark, "4");
    a.buffer.selection = Some(40);
    assert_eq!(a.buffer.readline_vars().mark, "5");
}

#[test]
fn a_command_changes_the_text_through_variables() {
    let mut a = app("old");
    a.run_bash_command(
        &Some("new text\r\n\n".to_string()),
        &Some("3".to_string()),
        &Some("5".to_string()),
    );
    assert_eq!(a.buffer.buffer(), "new text");
    assert_eq!(a.buffer.cursor, 3);
    assert_eq!(a.buffer.selection, Some(5));

    // A mark at the point selects nothing.
    let mut a = app("old");
    a.run_bash_command(&None, &Some("1".to_string()), &Some("1".to_string()));
    assert_eq!((a.buffer.cursor, a.buffer.selection), (1, None));

    // A mark that stayed where it was selects nothing either, unless it did before.
    let mut a = app("old");
    a.run_bash_command(&None, &Some("0".to_string()), &Some("3".to_string()));
    assert_eq!((a.buffer.cursor, a.buffer.selection), (0, None));
    let mut a = app("old");
    a.buffer.selection = Some(3);
    a.buffer.cursor = 1;
    a.run_bash_command(&None, &Some("0".to_string()), &Some("3".to_string()));
    assert_eq!((a.buffer.cursor, a.buffer.selection), (0, Some(3)));

    // Positions beyond the end are moved to it, and what is no number is ignored.
    let mut a = app("old");
    a.run_bash_command(&None, &Some("99".to_string()), &Some("1".to_string()));
    assert_eq!((a.buffer.cursor, a.buffer.selection), (3, Some(1)));
    let mut a = app("old");
    a.buffer.cursor = 2;
    a.run_bash_command(&None, &Some("x".to_string()), &Some("y".to_string()));
    assert_eq!((a.buffer.cursor, a.buffer.selection), (2, None));
}

#[test]
fn a_command_that_changes_no_variable_changes_nothing() {
    for (cursor, selection) in [(0usize, None), (2, Some(5)), (5, Some(0)), (5, None)] {
        let mut a = app("héllo");
        a.buffer.cursor = cursor;
        a.buffer.selection = selection;
        let vars = a.buffer.readline_vars();
        a.run_bash_command(&Some(vars.line), &Some(vars.point), &Some(vars.mark));
        assert_eq!(a.buffer.buffer(), "héllo");
        assert_eq!((a.buffer.cursor, a.buffer.selection), (cursor, selection));
    }
}
