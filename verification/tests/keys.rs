use xnano::editor::{Editor, MenuState};
use xnano::input::{KeyCode, KeyInput};
use xnano::keys::{decode_key, Action, Command};

fn editor_on(text: &str) -> Editor {
    Editor::new(
        None,
        text.to_string(),
        &vec![],
        (String::from("base16-ocean.dark"), false, false),
        String::new(),
    )
}

fn key(code: KeyCode, ctrl: bool, alt: bool) -> KeyInput {
    KeyInput { code, ctrl, alt }
}

fn ch(c: char) -> KeyInput {
    key(KeyCode::Char(c), false, false)
}

fn ctrl(c: char) -> KeyInput {
    key(KeyCode::Char(c), true, false)
}

fn alt(c: char) -> KeyInput {
    key(KeyCode::Char(c), false, true)
}

fn press(e: &mut Editor, k: KeyInput) -> Command {
    assert!(e.keypress_allowed(k));
    e.process_keypress(k, 24)
}

#[test]
fn bindings_follow_the_help() {
    assert_eq!(decode_key(KeyCode::Char('^'), true, false), Action::ToggleMark);
    assert_eq!(decode_key(KeyCode::Char('a'), true, true), Action::ToggleMark);
    assert_eq!(decode_key(KeyCode::Char('a'), true, false), Action::LineStart);
    assert_eq!(decode_key(KeyCode::Char('g'), true, false), Action::ShowHelp);
    assert_eq!(decode_key(KeyCode::F(1), false, false), Action::ShowHelp);
    assert_eq!(decode_key(KeyCode::Char('t'), true, false), Action::SpellCheck);
    assert_eq!(decode_key(KeyCode::Char('t'), false, true), Action::CycleTheme);
    assert_eq!(decode_key(KeyCode::Char('p'), true, true), Action::PageUp);
    assert_eq!(decode_key(KeyCode::Char('p'), true, false), Action::Up);
    assert_eq!(decode_key(KeyCode::F(10), false, false), Action::PasteOrUnjustify);
    assert_eq!(decode_key(KeyCode::Left, true, false), Action::WordLeft);
    assert_eq!(decode_key(KeyCode::Right, false, false), Action::Right);
    assert_eq!(decode_key(KeyCode::Char('x'), false, false), Action::Type('x'));
    assert_eq!(decode_key(KeyCode::Char('x'), false, true), Action::Unbound);
    assert_eq!(decode_key(KeyCode::F(13), false, false), Action::Unbound);
    assert_eq!(decode_key(KeyCode::Char('\\'), true, false), Action::Replace);
}

#[test]
fn keys_left_to_the_caller_change_nothing() {
    let mut e = editor_on("abc");
    assert_eq!(press(&mut e, ctrl('o')), Command::Save);
    assert_eq!(press(&mut e, ctrl('x')), Command::Exit);
    assert_eq!(press(&mut e, ctrl('w')), Command::WhereIs);
    assert_eq!(press(&mut e, key(KeyCode::F(5), false, false)), Command::ReadFile);
    assert_eq!(press(&mut e, alt('t')), Command::CycleTheme);
    assert_eq!(e.buffer_text(), "abc");
}

#[test]
fn typing_through_keys() {
    let mut e = editor_on("");
    for c in "hi".chars() {
        assert_eq!(press(&mut e, ch(c)), Command::Done);
    }
    press(&mut e, key(KeyCode::Enter, false, false));
    press(&mut e, ch('!'));
    assert_eq!(e.buffer_text(), "hi\n!");
    press(&mut e, key(KeyCode::Backspace, false, false));
    assert_eq!(e.buffer_text(), "hi\n");
}

#[test]
fn esc_then_a_key_counts_as_meta() {
    let mut e = editor_on("abc");
    assert_eq!(press(&mut e, key(KeyCode::Esc, false, false)), Command::Pending);
    assert!(e.escape_pending);
    assert_eq!(press(&mut e, ch('l')), Command::SaveConfig);
    assert!(!e.escape_pending);
    assert!(e.show_line_numbers);
    assert_eq!(e.status_message, "Line numbers enabled");
    assert_eq!(e.buffer_text(), "abc");
}

#[test]
fn soft_wrap_toggles() {
    let mut e = editor_on("");
    assert_eq!(press(&mut e, alt('s')), Command::SaveConfig);
    assert!(e.soft_wrap);
    assert_eq!(e.status_message, "Soft wrap enabled");
    press(&mut e, alt('s'));
    assert!(!e.soft_wrap);
    assert_eq!(e.status_message, "Soft wrap disabled");
}

#[test]
fn line_numbers_toggle_twice_come_back() {
    let mut e = editor_on("one\ntwo");
    press(&mut e, ctrl('n'));
    assert_eq!(press(&mut e, alt('l')), Command::SaveConfig);
    assert!(e.show_line_numbers);
    assert_eq!(e.status_message, "Line numbers enabled");
    press(&mut e, alt('l'));
    assert!(!e.show_line_numbers);
    assert_eq!(e.status_message, "Line numbers disabled");
    assert_eq!(e.buffer_text(), "one\ntwo");
    assert_eq!((e.cursor_x, e.cursor_y), (0, 1));
}

#[test]
fn ctrl_u_right_after_justify_undoes_it() {
    let text = "one two\nthree\n\nfour";
    let mut e = editor_on(text);
    assert_eq!(press(&mut e, ctrl('j')), Command::Done);
    assert_eq!(e.buffer_text(), "one two three\n\nfour");
    assert!(e.is_justified);
    press(&mut e, ctrl('u'));
    assert_eq!(e.buffer_text(), text);
    assert!(!e.is_justified);
}

#[test]
fn ctrl_u_pastes_after_any_other_key() {
    let mut e = editor_on("one\ntwo\n");
    press(&mut e, ctrl('k'));
    assert!(e.previous_action_was_cut);
    press(&mut e, ctrl('k'));
    assert_eq!(e.clipboard, "one\ntwo\n");
    assert_eq!(e.buffer_text(), "");
    press(&mut e, ctrl('u'));
    assert_eq!(e.buffer_text(), "one\ntwo\n");
    assert!(!e.previous_action_was_cut);
}

#[test]
fn a_cut_after_another_key_starts_a_new_clipboard() {
    let mut e = editor_on("one\ntwo\nthree");
    press(&mut e, ctrl('k'));
    press(&mut e, key(KeyCode::Down, false, false));
    press(&mut e, ctrl('k'));
    assert_eq!(e.clipboard, "three");
}

#[test]
fn meta_o_turns_the_menu_pages() {
    let mut e = editor_on("");
    press(&mut e, alt('o'));
    assert_eq!(e.menu_state, MenuState::Menu2);
    press(&mut e, alt('o'));
    assert_eq!(e.menu_state, MenuState::Menu3);
    press(&mut e, alt('o'));
    assert_eq!(e.menu_state, MenuState::Menu1);
}

#[test]
fn meta_u_opens_the_update_page_only_when_announced() {
    let mut e = editor_on("");
    assert_eq!(press(&mut e, alt('u')), Command::Done);
    assert_eq!(e.status_message, "No update pending.");
    e.announce_update(String::from("1.2.3"));
    assert_eq!(e.status_message, "Press Meta+U (Alt+U) to update xnano to version 1.2.3");
    assert_eq!(press(&mut e, alt('u')), Command::OpenUpdatePage);
    assert_eq!(e.status_message, "Opened browser to download update.");
    assert_eq!(e.update_version, None);
}

#[test]
fn an_unbound_key_clears_the_status() {
    let mut e = editor_on("");
    e.set_status(String::from("hello"));
    press(&mut e, key(KeyCode::Other, false, false));
    assert_eq!(e.status_message, "");
    assert!(!e.status_timed);
}

#[test]
fn any_key_clears_the_search_highlight() {
    let mut e = editor_on("find me");
    e.where_is(Some(String::from("me")));
    assert!(e.highlight_match.is_some());
    press(&mut e, key(KeyCode::Left, false, false));
    assert_eq!(e.highlight_match, None);
}

#[test]
fn enter_after_a_lone_cr_at_the_end_goes_past_the_last_line() {
    let enter = key(KeyCode::Enter, false, false);
    let mut e = editor_on("a\r");
    e.move_down();
    assert_eq!((e.cursor_y, e.cursor_x), (1, 0));
    assert!(e.enter_ok());
    assert!(e.keypress_allowed(enter));
    assert_eq!(e.process_keypress(enter, 24), Command::Done);
    assert_eq!(e.buffer_text(), "a\r\n");
    assert_eq!(e.line_count(), 2);
    assert_eq!((e.cursor_y, e.cursor_x, e.desired_cursor_x), (2, 0, 0));
    assert!(e.cursor_past_last_line());
    assert!(e.is_modified);
    // From there the original can go on with Enter, moves and Backspace,
    // but typing would put the cursor past the text and justify would read
    // a line that does not exist.
    assert!(!e.keypress_allowed(ch('x')));
    assert!(!e.keypress_allowed(key(KeyCode::Tab, false, false)));
    assert!(!e.keypress_allowed(ctrl('j')));
    assert!(e.keypress_allowed(enter));
    e.process_keypress(enter, 24);
    assert_eq!(e.buffer_text(), "a\r\n\n");
    assert_eq!((e.cursor_y, e.cursor_x), (3, 0));
    let back = key(KeyCode::Backspace, false, false);
    assert!(e.keypress_allowed(back));
    e.process_keypress(back, 24);
    assert_eq!(e.buffer_text(), "a\r\n");
    assert_eq!((e.cursor_y, e.cursor_x), (1, 0));

    let mut e = editor_on("a\rbc");
    e.move_down();
    e.process_keypress(enter, 24);
    assert_eq!(e.buffer_text(), "a\r\nbc");
    assert_eq!((e.cursor_y, e.cursor_x), (2, 0));
    let up = key(KeyCode::Up, false, false);
    e.process_keypress(up, 24);
    assert_eq!((e.cursor_y, e.cursor_x), (1, 0));

    let mut e = editor_on("a\r");
    e.move_down();
    assert!(!e.typed_char_ok('\n'));
    assert!(!e.keypress_allowed(ch('\n')));
}

#[test]
fn enter_after_a_lone_cr_before_more_lines_is_allowed() {
    let mut e = editor_on("a\rb\nc");
    e.move_down();
    assert!(e.enter_ok());
    press(&mut e, key(KeyCode::Enter, false, false));
    assert_eq!(e.buffer_text(), "a\r\nb\nc");
}

#[test]
fn a_marked_span_beyond_the_text_is_refused() {
    let mut e = editor_on("abc");
    e.mark = Some(10);
    assert!(!e.keypress_allowed(ch('x')));
    e.mark = Some(1);
    assert!(e.keypress_allowed(ch('x')));
    assert!(e.is_well_formed());
    e.cursor_y = 5;
    assert!(!e.is_well_formed());
}

#[test]
fn a_move_key_then_the_view_follows() {
    let mut e = editor_on("1\n2\n3\n4\n5\n6");
    for _ in 0..3 {
        let k = key(KeyCode::Down, false, false);
        assert!(e.keypress_allowed(k));
        assert_eq!(e.handle_key(k, 80, 6), Command::Done);
    }
    assert_eq!(e.cursor_y, 3);
    assert_eq!(e.row_offset, 2);
    let k = ctrl('w');
    assert!(e.keypress_allowed(k));
    assert_eq!(e.handle_key(k, 80, 6), Command::WhereIs);
    assert!(!Editor::command_keeps_view(Command::WhereIs));
    assert!(Editor::command_keeps_view(Command::ShowHelp));
    let k = key(KeyCode::Up, false, false);
    for _ in 0..3 {
        e.handle_key(k, 80, 6);
    }
    assert_eq!((e.cursor_y, e.row_offset), (0, 0));
}

#[test]
fn an_edit_key_then_the_view_follows() {
    let mut e = editor_on("");
    for _ in 0..4 {
        let k = key(KeyCode::Enter, false, false);
        assert!(e.keypress_allowed(k));
        assert_eq!(e.handle_key(k, 80, 6), Command::Done);
    }
    assert_eq!(e.buffer_text(), "\n\n\n\n");
    assert_eq!((e.cursor_y, e.row_offset), (4, 3));
    let k = ctrl('k');
    assert_eq!(e.handle_key(k, 80, 6), Command::Done);
    assert!(e.previous_action_was_cut);
}
