use xnano::browser::{browser_choice, BrowserChoice, BrowserEntry};
use xnano::editor::{Editor, MenuState};
use xnano::input::{InputOutcome, KeyCode, KeyInput, LineInput};
use xnano::keys::Command;

fn key(code: KeyCode) -> KeyInput {
    KeyInput { code, ctrl: false, alt: false }
}

fn editor_on(text: &str) -> Editor {
    Editor::new(None, text.to_string(), &vec![], (String::from("base16-ocean.dark"), false, false), String::new())
}

fn entry(name: &str, is_dir: bool) -> BrowserEntry {
    BrowserEntry { name: name.to_string(), is_dir }
}

#[test]
fn a_typed_file_name_is_the_result() {
    let mut input = LineInput::new("/tmp/");
    input.apply(key(KeyCode::Char('a')), false);
    assert_eq!(input.apply(key(KeyCode::Enter), false), InputOutcome::Submit);
    assert_eq!(input.submitted(), Some(String::from("/tmp/a")));
}

#[test]
fn an_emptied_input_gives_nothing() {
    let mut input = LineInput::new("/tmp/");
    for _ in 0..5 {
        input.apply(key(KeyCode::Backspace), false);
    }
    assert_eq!(input.apply(key(KeyCode::Enter), false), InputOutcome::Submit);
    assert_eq!(input.submitted(), None);
}

#[test]
fn control_chars_are_not_typed_into_an_input() {
    let mut input = LineInput::new("");
    input.apply(key(KeyCode::Char('\u{7}')), false);
    input.apply(key(KeyCode::Char('\u{85}')), false);
    input.apply(key(KeyCode::Char('é')), false);
    assert_eq!(input.text(), "é");
}

#[test]
fn cancelling_a_prompt_says_so() {
    let mut e = editor_on("abc");
    e.begin_prompt(false);
    e.cancel_prompt();
    assert_eq!(e.status_message, "Cancelled.");
    assert_eq!(e.menu_state, MenuState::Menu1);
    assert_eq!(e.buffer_text(), "abc");
}

#[test]
fn a_missing_directory_refuses_the_save() {
    let mut e = editor_on("abc");
    e.begin_prompt(true);
    e.refuse_missing_directory();
    assert_eq!(e.status_message, "File not saved. Directory does not exist.");
    assert_eq!(e.menu_state, MenuState::Menu1);
}

#[test]
fn enter_in_the_browser() {
    match browser_choice("/home/u", &entry(".", true), '/') {
        BrowserChoice::AskName(p) => assert_eq!(p, "/home/u/"),
        _ => panic!("expected a name prompt"),
    }
    match browser_choice("/", &entry(".", true), '/') {
        BrowserChoice::AskName(p) => assert_eq!(p, "/"),
        _ => panic!("expected a name prompt"),
    }
    assert!(matches!(browser_choice("/home/u", &entry("..", true), '/'), BrowserChoice::Up));
    match browser_choice("/home/u", &entry("src", true), '/') {
        BrowserChoice::Open(p) => assert_eq!(p, "/home/u/src"),
        _ => panic!("expected a directory"),
    }
    match browser_choice("/", &entry("etc", true), '/') {
        BrowserChoice::Open(p) => assert_eq!(p, "/etc"),
        _ => panic!("expected a directory"),
    }
    match browser_choice("/home/u", &entry("notes.txt", false), '/') {
        BrowserChoice::Pick(p) => assert_eq!(p, "/home/u/notes.txt"),
        _ => panic!("expected a file"),
    }
    match browser_choice("/home/u", &entry("..", false), '/') {
        BrowserChoice::Pick(p) => assert_eq!(p, "/home/u/.."),
        _ => panic!("expected a file"),
    }
}

#[test]
fn a_mark_left_past_the_text_blocks_only_keys_that_use_it() {
    let mut e = editor_on("a   b");
    let end = KeyInput { code: KeyCode::Char('e'), ctrl: true, alt: false };
    let mark = KeyInput { code: KeyCode::Char('^'), ctrl: true, alt: false };
    let justify = KeyInput { code: KeyCode::Char('j'), ctrl: true, alt: false };
    for k in [end, mark, justify] {
        assert!(e.keypress_allowed(k));
        e.process_keypress(k, 24);
    }
    assert_eq!(e.mark, Some(5));
    assert_eq!(e.buffer_text(), "a b\n");
    let down = key(KeyCode::Down);
    assert!(e.keypress_allowed(down));
    e.process_keypress(down, 24);
    let help = KeyInput { code: KeyCode::Char('g'), ctrl: true, alt: false };
    assert!(e.keypress_allowed(help));
    assert_eq!(e.process_keypress(help, 24), Command::ShowHelp);
    let numbers = KeyInput { code: KeyCode::Char('l'), ctrl: false, alt: true };
    assert!(e.keypress_allowed(numbers));
    assert_eq!(e.process_keypress(numbers, 24), Command::SaveConfig);
    assert!(e.show_line_numbers);
    assert!(!e.keypress_allowed(key(KeyCode::Char('x'))));
    assert!(!e.keypress_allowed(key(KeyCode::Backspace)));
}
