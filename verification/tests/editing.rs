use xnano::editor::Editor;

fn editor_on(text: &str) -> Editor {
    Editor::new(
        None,
        text.to_string(),
        &vec![],
        (String::from("base16-ocean.dark"), false, false),
        String::new(),
    )
}

fn text_of(e: &Editor) -> String {
    e.buffer_text()
}

#[test]
fn typing_inserts_chars_and_moves_past_them() {
    let mut e = editor_on("");
    e.insert_typed_char('h');
    e.insert_typed_char('i');
    assert_eq!(text_of(&e), "hi");
    assert_eq!(e.cursor_x, 2);
    assert_eq!(e.desired_cursor_x, 2);
    assert!(e.is_modified);
}

#[test]
fn typing_then_backspace_gives_back_the_text() {
    let mut e = editor_on("abc\ndef");
    e.move_down();
    e.move_right();
    e.insert_typed_char('x');
    assert_eq!(text_of(&e), "abc\ndxef");
    e.backspace();
    assert_eq!(text_of(&e), "abc\ndef");
    assert_eq!(e.get_cursor_char_idx(), 5);
}

#[test]
fn backspace_at_line_start_joins_lines() {
    let mut e = editor_on("ab\ncd");
    e.move_down();
    e.backspace();
    assert_eq!(text_of(&e), "abcd");
    assert_eq!((e.cursor_y, e.cursor_x), (0, 2));
}

#[test]
fn backspace_at_start_of_text_does_nothing() {
    let mut e = editor_on("ab");
    e.backspace();
    assert_eq!(text_of(&e), "ab");
    assert!(!e.is_modified);
}

#[test]
fn enter_splits_the_line() {
    let mut e = editor_on("ab");
    e.move_right();
    e.insert_newline();
    assert_eq!(text_of(&e), "a\nb");
    assert_eq!((e.cursor_y, e.cursor_x), (1, 0));
}

#[test]
fn delete_removes_the_char_under_the_cursor() {
    let mut e = editor_on("abc");
    e.move_right();
    e.delete_char();
    assert_eq!(text_of(&e), "ac");
    assert_eq!(e.cursor_x, 1);
    e.move_to_end_of_line();
    e.delete_char();
    assert_eq!(text_of(&e), "ac");
}

#[test]
fn tab_inserts_four_spaces() {
    let mut e = editor_on("x");
    e.insert_tab();
    assert_eq!(text_of(&e), "    x");
    assert_eq!(e.cursor_x, 4);
}

#[test]
fn moving_right_then_left_comes_back() {
    let mut e = editor_on("ab\ncd");
    e.move_right();
    e.move_right();
    let before = e.get_cursor_char_idx();
    e.move_right();
    assert_eq!((e.cursor_y, e.cursor_x), (1, 0));
    e.move_left();
    assert_eq!(e.get_cursor_char_idx(), before);
    assert_eq!((e.cursor_y, e.cursor_x), (0, 2));
}

#[test]
fn vertical_moves_keep_the_goal_column() {
    let mut e = editor_on("long line\nab\nanother line");
    e.move_to_end_of_line();
    assert_eq!(e.cursor_x, 9);
    e.move_down();
    assert_eq!((e.cursor_y, e.cursor_x), (1, 2));
    e.move_down();
    assert_eq!((e.cursor_y, e.cursor_x), (2, 9));
    e.move_down();
    assert_eq!(e.cursor_y, 2);
    e.move_up();
    e.move_up();
    assert_eq!((e.cursor_y, e.cursor_x), (0, 9));
    e.move_up();
    assert_eq!(e.cursor_y, 0);
}

#[test]
fn end_of_line_stops_before_crlf() {
    let mut e = editor_on("ab\r\ncd");
    e.move_to_end_of_line();
    assert_eq!(e.cursor_x, 2);
    assert_eq!(e.line_len(0), 2);
    assert_eq!(e.line_len(5), 0);
    e.move_to_start_of_line();
    assert_eq!(e.cursor_x, 0);
}

#[test]
fn word_moves_jump_over_words() {
    let mut e = editor_on("foo bar_baz, qux");
    e.move_word_right();
    assert_eq!(e.cursor_x, 4);
    e.move_word_right();
    assert_eq!(e.cursor_x, 13);
    e.move_word_right();
    assert_eq!(e.cursor_x, 16);
    e.move_word_left();
    assert_eq!(e.cursor_x, 13);
    e.move_word_left();
    assert_eq!(e.cursor_x, 4);
    e.move_word_left();
    assert_eq!(e.cursor_x, 0);
}

#[test]
fn visual_widths_expand_tabs() {
    let mut e = editor_on("\tab\tc\n");
    assert_eq!(e.get_visual_line_width(0), 9);
    e.move_right();
    e.move_right();
    assert_eq!(e.get_visual_cursor_x(), 5);
    assert_eq!(e.get_visual_line_width(7), 0);
}

#[test]
fn cutting_a_line_and_pasting_it_back_gives_back_the_text() {
    let mut e = editor_on("one\ntwo\nthree");
    e.move_down();
    e.cut_line();
    assert_eq!(text_of(&e), "one\nthree");
    assert_eq!(e.clipboard, "two\n");
    assert_eq!(e.status_message, "Cut line");
    e.paste_line();
    assert_eq!(text_of(&e), "one\ntwo\nthree");
    assert_eq!(e.status_message, "Pasted text");
    assert_eq!((e.cursor_y, e.cursor_x), (2, 0));
}

#[test]
fn cutting_the_selection() {
    let mut e = editor_on("hello world");
    e.toggle_mark();
    assert_eq!(e.status_message, "Mark Set");
    for _ in 0..5 {
        e.move_right();
    }
    e.cut_line();
    assert_eq!(text_of(&e), " world");
    assert_eq!(e.clipboard, "hello");
    assert_eq!(e.status_message, "Cut selection");
    assert_eq!(e.mark, None);
    assert_eq!(e.cursor_x, 0);
}

#[test]
fn cut_in_an_empty_buffer_does_nothing() {
    let mut e = editor_on("");
    e.cut_line();
    assert_eq!(e.clipboard, "");
    assert_eq!(e.status_message, "");
}

#[test]
fn typing_replaces_the_selection() {
    let mut e = editor_on("abcdef");
    e.move_right();
    e.toggle_mark();
    e.move_right();
    e.move_right();
    e.insert_typed_char('X');
    assert_eq!(text_of(&e), "aXdef");
    assert_eq!(e.cursor_x, 2);
    assert_eq!(e.mark, None);
}

#[test]
fn toggling_the_mark_twice_unmarks() {
    let mut e = editor_on("abc");
    e.move_right();
    e.toggle_mark();
    assert_eq!(e.mark, Some(1));
    e.toggle_mark();
    assert_eq!(e.mark, None);
    assert_eq!(e.status_message, "Unmark set");
}

#[test]
fn delete_selection_reports_whether_it_deleted() {
    let mut e = editor_on("abc");
    e.toggle_mark();
    assert!(!e.delete_selection());
    assert_eq!(e.mark, None);
    e.move_right();
    e.move_right();
    e.toggle_mark();
    e.move_to_start_of_line();
    assert!(e.delete_selection());
    assert_eq!(text_of(&e), "c");
}

#[test]
fn current_position_is_reported() {
    let mut e = editor_on("abc\nde");
    e.move_down();
    e.move_right();
    e.cur_pos();
    assert_eq!(e.status_message, "line 2/2, col 2, char 6");
    assert!(e.status_timed);
}

#[test]
fn go_to_line_moves_to_the_line_start() {
    let mut e = editor_on("a\nb\nc\nd");
    e.go_to_line(Some(String::from(" 3 ")));
    assert_eq!((e.cursor_y, e.cursor_x), (2, 0));
    e.go_to_line(Some(String::from("99")));
    assert_eq!(e.cursor_y, 3);
    e.go_to_line(Some(String::from("0")));
    assert_eq!(e.cursor_y, 0);
    e.go_to_line(Some(String::from("x")));
    assert_eq!(e.status_message, "Invalid line number");
    e.go_to_line(None);
    assert_eq!(e.status_message, "Invalid line number");
}

#[test]
fn justify_fills_lines_and_unjustify_undoes_it() {
    let words = "alpha beta gamma delta epsilon zeta eta theta iota kappa lambda mu nu xi omicron pi rho";
    let text = format!("{}\n\nnext", words);
    let mut e = editor_on(&text);
    e.move_right();
    e.justify();
    let out = text_of(&e);
    assert_eq!(
        out,
        "alpha beta gamma delta epsilon zeta eta theta iota kappa lambda mu nu xi\nomicron pi rho\n\nnext"
    );
    assert_eq!(e.status_message, "Justified --- Ctrl+U to undo");
    assert!(e.is_justified);
    e.unjustify();
    assert_eq!(text_of(&e), text);
    assert_eq!((e.cursor_y, e.cursor_x), (0, 1));
    assert_eq!(e.status_message, "Unjustified");
}

#[test]
fn justify_in_an_empty_buffer_changes_nothing() {
    let mut e = editor_on("");
    e.justify();
    assert_eq!(text_of(&e), "");
    assert!(!e.is_modified);
    assert_eq!(e.status_message, "");
}

#[test]
fn justify_on_a_blank_line_takes_the_paragraph_above() {
    let mut e = editor_on("a\n\nb");
    e.move_down();
    e.justify();
    assert_eq!(text_of(&e), "a\n\nb");
    assert!(e.is_modified);
    assert_eq!((e.cursor_y, e.cursor_x), (1, 0));
}

#[test]
fn paging_moves_a_screenful() {
    let lines: Vec<String> = (0..30).map(|i| format!("line {}", i)).collect();
    let mut e = editor_on(&lines.join("\n"));
    e.page_down(14);
    assert_eq!(e.cursor_y, 10);
    e.page_down(14);
    e.page_down(14);
    assert_eq!(e.cursor_y, 29);
    e.page_up(14);
    assert_eq!(e.cursor_y, 19);
    e.page_up(3);
    assert_eq!(e.cursor_y, 19);
}

#[test]
fn scrolling_keeps_the_cursor_in_view() {
    let lines: Vec<String> = (0..50).map(|i| format!("{}", i)).collect();
    let mut e = editor_on(&lines.join("\n"));
    e.go_to_line(Some(String::from("40")));
    e.scroll(80, 24);
    assert_eq!(e.row_offset, 20);
    e.go_to_line(Some(String::from("5")));
    e.scroll(80, 24);
    assert_eq!(e.row_offset, 4);
}

#[test]
fn horizontal_scroll_jumps_half_a_screen() {
    let long: String = "x".repeat(100);
    let mut e = editor_on(&long);
    e.move_to_end_of_line();
    e.scroll(20, 10);
    assert_eq!(e.col_offset, 90);
}

#[test]
fn gutter_and_text_width() {
    let mut e = editor_on("a\nb\nc\nd\ne\nf\ng\nh\ni\nj");
    assert_eq!(e.get_gutter_width(), 0);
    e.show_line_numbers = true;
    assert_eq!(e.get_gutter_width(), 3);
    assert_eq!(e.text_width(80), 76);
    assert_eq!(e.text_width(2), 0);
}

#[test]
fn a_screen_with_no_text_rows_puts_the_cursor_line_on_top() {
    let lines: Vec<String> = (0..10).map(|i| format!("{}", i)).collect();
    let mut e = editor_on(&lines.join("\n"));
    e.go_to_line(Some(String::from("6")));
    e.scroll(80, 4);
    assert_eq!(e.row_offset, 5);
    e.scroll(80, 3);
    assert_eq!(e.row_offset, 5);
}

#[test]
fn soft_wrap_scrolls_by_wrapped_rows() {
    let long = "word ".repeat(30);
    let text = format!("{}\n{}\n{}\nend", long, long, long);
    let mut e = editor_on(&text);
    e.soft_wrap = true;
    e.go_to_line(Some(String::from("4")));
    e.scroll(40, 10);
    assert_eq!(e.col_offset, 0);
    assert_eq!(e.row_offset, 2);
}

#[test]
fn cutting_a_selection_and_pasting_it_back_gives_back_the_text() {
    let mut e = editor_on("one two three");
    for _ in 0..4 {
        e.move_right();
    }
    e.toggle_mark();
    for _ in 0..4 {
        e.move_right();
    }
    e.cut_line();
    assert_eq!(text_of(&e), "one three");
    e.paste_line();
    assert_eq!(text_of(&e), "one two three");
}

#[test]
fn a_cut_line_after_a_lone_cr_can_join_breaks() {
    let mut e = editor_on("a\rb\n\n");
    e.move_down();
    e.cut_line();
    assert_eq!(text_of(&e), "a\r\n");
    e.paste_line();
    assert_eq!(text_of(&e), "a\r\nb\n");
}

#[test]
fn justify_keeps_the_words_in_order() {
    let text = "one   two\n three\tfour five six seven eight nine ten eleven twelve thirteen fourteen\nfifteen";
    let mut e = editor_on(text);
    e.justify();
    let after = e.buffer_text();
    let before_words: Vec<&str> = text.split_whitespace().collect();
    let after_words: Vec<&str> = after.split_whitespace().collect();
    assert_eq!(after_words, before_words);
    assert!(after.lines().all(|l| l.len() <= 72));
    assert_eq!(after.lines().count(), 2);
}
