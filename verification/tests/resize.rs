use flyline::resize::{end_of_line, count_rows_up, ResizeLogic, ScreenBuffer};
use flyline::state::App;

fn empty(width: u16, height: u16) -> ScreenBuffer {
    let mut cells = Vec::new();
    for _ in 0..(width as usize * height as usize) {
        cells.push(None);
    }
    ScreenBuffer { x: 0, y: 0, width, height, cells }
}

fn set_symbol(buffer: &mut ScreenBuffer, x: usize, y: usize, symbol: &str) {
    let width = buffer.width as usize;
    buffer.cells[y * width + x] = Some(symbol.to_string());
}

fn write_line(buffer: &mut ScreenBuffer, y: usize, text: &str) {
    for (x, ch) in text.chars().enumerate() {
        set_symbol(buffer, x, y, &ch.to_string());
    }
}

#[test]
fn test_compute_line_width_from_buffer_and_wrapped_rows() {
    let mut buffer = empty(80, 5);

    let line0 = "(0 26ms) hal-itx-pc …al/projects/flyline better_resizing(1844)";
    write_line(&mut buffer, 0, line0);
    write_line(&mut buffer, 1, "(+26-3) ");
    write_line(&mut buffer, 2, "> ");

    assert_eq!(App::compute_line_width_from_buffer(&buffer, 0), 62);
    assert_eq!(App::compute_line_width_from_buffer(&buffer, 1), 8);
    assert_eq!(App::compute_line_width_from_buffer(&buffer, 2), 2);
    assert_eq!(App::compute_line_width_from_buffer(&buffer, 3), 0);

    assert_eq!(
        App::compute_wrapped_rows_up_from_buffer(&buffer, 2, 2, 30, ResizeLogic::AutoCleared),
        2
    );
    assert_eq!(
        App::compute_wrapped_rows_up_from_buffer(
            &buffer,
            2,
            2,
            30,
            ResizeLogic::ReflowedApartFromCursor
        ),
        4
    );
    assert_eq!(
        App::compute_wrapped_rows_up_from_buffer(&buffer, 45, 2, 30, ResizeLogic::ReflowedAll),
        5
    );
    assert_eq!(
        App::compute_wrapped_rows_up_from_buffer(
            &buffer,
            2,
            2,
            20,
            ResizeLogic::ReflowedApartFromCursor
        ),
        5
    );

    // A long line below the cursor pushes the cursor down too.
    write_line(&mut buffer, 2, line0);
    assert_eq!(
        App::compute_wrapped_rows_up_from_buffer(
            &buffer,
            2,
            1,
            30,
            ResizeLogic::ReflowedApartFromCursor
        ),
        5
    );
}

#[test]
fn test_compute_wrapped_rows_up_reflowed_all_whitespace_trimmed() {
    let mut buffer = empty(100, 4);
    let line0 = "(0 20ms) hal-itx-pc";
    write_line(&mut buffer, 0, line0);
    for x in line0.chars().count()..50 {
        set_symbol(&mut buffer, x, 0, " ");
    }
    write_line(&mut buffer, 1, ">");

    assert_eq!(App::compute_line_width_from_buffer(&buffer, 0), 50);
    assert_eq!(App::compute_line_width_from_buffer_opts(&buffer, 0, true), 19);
    assert_eq!(
        App::compute_wrapped_rows_up_from_buffer(&buffer, 1, 1, 20, ResizeLogic::ReflowedAll),
        3
    );
    assert_eq!(
        App::compute_wrapped_rows_up_from_buffer(
            &buffer,
            1,
            1,
            20,
            ResizeLogic::ReflowedAllWhitespaceTrimmed
        ),
        1
    );
}

#[test]
fn wide_symbols_take_two_columns() {
    let mut buffer = empty(10, 1);
    set_symbol(&mut buffer, 3, 0, "日");
    assert_eq!(App::compute_line_width_from_buffer(&buffer, 0), 5);
    set_symbol(&mut buffer, 9, 0, "日");
    assert_eq!(App::compute_line_width_from_buffer(&buffer, 0), 10);
}

#[test]
fn empty_text_in_a_cell_shows_nothing() {
    let mut buffer = empty(4, 1);
    set_symbol(&mut buffer, 1, 0, "a");
    set_symbol(&mut buffer, 2, 0, "");
    assert_eq!(App::compute_line_width_from_buffer(&buffer, 0), 2);
}

#[test]
fn cells_are_found_inside_the_area_only() {
    let mut buffer = empty(3, 2);
    buffer.x = 2;
    buffer.y = 5;
    buffer.cells[3] = Some("x".to_string());
    // The first column of the area is column 2, beyond it lie columns that a line
    // of three columns does not have.
    assert_eq!(App::compute_line_width_from_buffer(&buffer, 6), 3);
    assert_eq!(App::compute_line_width_from_buffer(&buffer, 5), 0);
    assert_eq!(App::compute_line_width_from_buffer(&buffer, 0), 0);
    assert!(buffer.symbol(2, 6).is_some());
    assert!(buffer.symbol(0, 6).is_none());
}

#[test]
fn no_width_and_no_movement_give_no_rows() {
    let mut buffer = empty(8, 3);
    write_line(&mut buffer, 0, "12345678");
    for logic in [
        ResizeLogic::Default,
        ResizeLogic::AutoCleared,
        ResizeLogic::ReflowedApartFromCursor,
        ResizeLogic::ReflowedAll,
        ResizeLogic::ReflowedAllWhitespaceTrimmed,
        ResizeLogic::DontMoveCursor,
    ] {
        assert_eq!(App::compute_wrapped_rows_up(&buffer, 1, 2, 0, logic), Some(0));
    }
    assert_eq!(
        App::compute_wrapped_rows_up(&buffer, 1, 2, 4, ResizeLogic::DontMoveCursor),
        Some(0)
    );
    assert_eq!(App::compute_wrapped_rows_up(&buffer, 1, 2, 4, ResizeLogic::Default), Some(3));
}

#[test]
fn rows_that_no_terminal_has_are_reported() {
    let above = vec![65535u16; 3];
    assert_eq!(count_rows_up(&above, &vec![], 0, 1, ResizeLogic::Default), 3 * 65535);
    let mut buffer = empty(300, 300);
    for y in 0..300 {
        set_symbol(&mut buffer, 299, y, "x");
    }
    assert_eq!(App::compute_wrapped_rows_up(&buffer, 0, 299, 1, ResizeLogic::Default), None);
    assert_eq!(App::compute_wrapped_rows_up(&buffer, 0, 100, 1, ResizeLogic::Default), Some(30000));
}

#[test]
fn nothing_wraps_on_a_wide_terminal() {
    let mut buffer = empty(20, 4);
    write_line(&mut buffer, 0, "a prompt");
    write_line(&mut buffer, 1, "> command");
    write_line(&mut buffer, 3, "below");
    for logic in [
        ResizeLogic::Default,
        ResizeLogic::ReflowedApartFromCursor,
        ResizeLogic::ReflowedAll,
        ResizeLogic::ReflowedAllWhitespaceTrimmed,
    ] {
        assert_eq!(App::compute_wrapped_rows_up(&buffer, 9, 2, 40, logic), Some(2));
    }
}

#[test]
fn wrapping_moves_the_cursor_down() {
    let mut buffer = empty(20, 4);
    write_line(&mut buffer, 0, "a longer prompt here");
    for width in 1..20u16 {
        let rows =
            App::compute_wrapped_rows_up(&buffer, 0, 2, width, ResizeLogic::Default).unwrap();
        assert!(rows >= 2);
    }
}

#[test]
fn a_wider_terminal_needs_no_more_rows() {
    let mut buffer = empty(80, 4);
    for y in 0..4 {
        write_line(&mut buffer, y, &"x".repeat(80 - 25 * y));
    }
    for logic in [
        ResizeLogic::Default,
        ResizeLogic::ReflowedApartFromCursor,
        ResizeLogic::ReflowedAll,
        ResizeLogic::ReflowedAllWhitespaceTrimmed,
    ] {
        let rows: Vec<u16> = (1..100)
            .map(|w| App::compute_wrapped_rows_up(&buffer, 29, 2, w, logic).unwrap())
            .collect();
        assert!(rows.windows(2).all(|pair| pair[1] <= pair[0]));
        assert!(rows[0] > rows[98]);
    }
}

#[test]
fn trimming_takes_no_more_columns() {
    let mut buffer = empty(10, 3);
    write_line(&mut buffer, 0, "ab  ");
    set_symbol(&mut buffer, 3, 1, "\u{4e16}");
    set_symbol(&mut buffer, 4, 1, " ");
    for (y, trimmed, whole) in [(0, 2, 4), (1, 5, 5), (2, 0, 0)] {
        assert_eq!(App::compute_line_width_from_buffer_opts(&buffer, y, true), trimmed);
        assert_eq!(App::compute_line_width_from_buffer_opts(&buffer, y, false), whole);
    }
}

#[test]
fn end_of_line_counts_one_column_at_least() {
    assert_eq!(end_of_line(4, 0, 80), 5);
    assert_eq!(end_of_line(4, 2, 80), 6);
    assert_eq!(end_of_line(79, 2, 80), 80);
}
