use xnano::editor::{Editor, ReplaceStep};
use xnano::justify::justify_text;
use xnano::search::find_from;
use xnano::session::{count_lines, expand_tilde, poll_timeout_ms, status_expired, status_stale};

fn editor_on(text: &str, filename: Option<&str>) -> Editor {
    Editor::new(
        filename.map(|s| s.to_string()),
        text.to_string(),
        &vec![],
        (String::from("base16-ocean.dark"), false, false),
        String::from("hello"),
    )
}

#[test]
fn a_new_editor_starts_at_the_top() {
    let e = editor_on("a\nb", Some("f.txt"));
    assert_eq!((e.cursor_x, e.cursor_y), (0, 0));
    assert_eq!(e.filename, Some(String::from("f.txt")));
    assert_eq!(e.status_message, "hello");
    assert!(!e.is_modified);
    assert_eq!(e.line_count(), 2);
}

#[test]
fn lines_are_counted_as_str_lines_counts_them() {
    assert_eq!(count_lines(""), 0);
    assert_eq!(count_lines("a"), 1);
    assert_eq!(count_lines("a\n"), 1);
    assert_eq!(count_lines("a\n\nb"), 3);
    assert_eq!(count_lines("a\r\n\r\n"), 2);
    assert_eq!(count_lines("\n"), 1);
}

#[test]
fn reading_a_file_inserts_it_at_the_cursor() {
    let mut e = editor_on("ab", None);
    e.move_right();
    e.insert_file_contents(String::from("X\nY\n"));
    assert_eq!(e.buffer_text(), "aX\nY\nb");
    assert_eq!((e.cursor_y, e.cursor_x), (0, 1));
    assert_eq!(e.status_message, "Read 2 lines");
    assert!(e.is_modified);
    assert_eq!(e.resolve_read_name(String::new()), None);
    assert_eq!(e.status_message, "Read cancelled.");
    assert_eq!(e.resolve_read_name(String::from("x")), Some(String::from("x")));
}

#[test]
fn saving_offers_the_current_name() {
    let mut e = editor_on("a\nb\n", Some("notes.txt"));
    assert_eq!(e.save_prompt_text(), "File name to write [notes.txt]: ");
    assert_eq!(e.resolve_save_name(String::new()), Some(String::from("notes.txt")));
    assert!(!e.needs_overwrite_confirm("notes.txt", true));
    assert!(e.needs_overwrite_confirm("other.txt", true));
    assert!(!e.needs_overwrite_confirm("other.txt", false));
    e.insert_typed_char('x');
    e.finish_save(String::from("other.txt"));
    assert_eq!(e.filename, Some(String::from("other.txt")));
    assert_eq!(e.status_message, "Wrote 3 lines");
    assert!(!e.is_modified);
}

#[test]
fn saving_without_any_name_is_cancelled() {
    let mut e = editor_on("", None);
    assert_eq!(e.save_prompt_text(), "File name to write: ");
    assert_eq!(e.resolve_save_name(String::new()), None);
    assert_eq!(e.status_message, "Save cancelled: No filename provided.");
    assert!(!e.confirm_overwrite(Some(false)));
    assert_eq!(e.status_message, "Save cancelled");
    assert!(e.confirm_overwrite(Some(true)));
}

#[test]
fn leaving_asks_only_for_a_modified_buffer() {
    let mut e = editor_on("a", None);
    assert!(!e.request_exit());
    assert!(e.should_quit);
    let mut e = editor_on("a", None);
    e.insert_typed_char('b');
    assert!(e.request_exit());
    assert!(!e.should_quit);
    assert!(!e.resolve_exit(None));
    assert!(!e.should_quit);
    assert!(e.resolve_exit(Some(true)));
    e.finish_exit();
    assert!(!e.should_quit);
    e.finish_save(String::from("x"));
    e.finish_exit();
    assert!(e.should_quit);
    let mut e = editor_on("a", None);
    e.insert_typed_char('b');
    assert!(!e.resolve_exit(Some(false)));
    assert!(e.should_quit);
}

#[test]
fn a_leading_tilde_is_the_home_directory() {
    assert_eq!(expand_tilde("~/notes.txt", "/home/u"), "/home/u/notes.txt");
    assert_eq!(expand_tilde("~\\x", "C:\\Users\\u"), "C:\\Users\\u\\x");
    assert_eq!(expand_tilde("~", "/home/u"), "/home/u");
    assert_eq!(expand_tilde("~user/x", "/home/u"), "~user/x");
    assert_eq!(expand_tilde("~/x", ""), "~/x");
    assert_eq!(expand_tilde("a/~/x", "/h"), "a/~/x");
}

#[test]
fn the_event_loop_waits_for_the_status_to_expire() {
    assert_eq!(poll_timeout_ms(Some(1000), false), 2000);
    assert_eq!(poll_timeout_ms(Some(5000), false), 1);
    assert_eq!(poll_timeout_ms(None, false), 3600000);
    assert_eq!(poll_timeout_ms(None, true), 250);
    assert_eq!(poll_timeout_ms(Some(2900), true), 100);
    assert!(status_expired(10000));
    assert!(!status_expired(9999));
    assert!(status_stale(3000));
    assert!(!status_stale(2999));
}

#[test]
fn search_moves_to_the_next_match_and_wraps() {
    let mut e = editor_on("ab ab ab", None);
    e.where_is(Some(String::from("ab")));
    assert_eq!(e.cursor_x, 3);
    assert_eq!(e.highlight_match, Some((0, 3, 5)));
    assert_eq!(e.last_search, Some(String::from("ab")));
    e.where_is(Some(String::new()));
    assert_eq!(e.cursor_x, 6);
    e.where_is(Some(String::new()));
    assert_eq!(e.cursor_x, 0);
    assert_eq!(e.status_message, "Search wrapped to top");
    e.where_is(Some(String::from("zz")));
    assert_eq!(e.status_message, "\"zz\" not found");
    assert_eq!(e.cursor_x, 0);
}

#[test]
fn the_search_prompt_offers_the_last_search() {
    let mut e = editor_on("abc", None);
    assert_eq!(e.prompt_text_with_last("Search"), "Search: ");
    e.where_is(Some(String::from("bc")));
    assert_eq!(e.prompt_text_with_last("Search"), "Search [bc]: ");
}

#[test]
fn replacing_all_matches() {
    let mut e = editor_on("a b a", None);
    let mut sess = e.begin_replace(String::from("a"), String::from("xy"));
    assert_eq!(e.replace_step(&mut sess, 80, 24), ReplaceStep::Ask);
    assert_eq!(e.replace_answer(&mut sess, Some('a')), ReplaceStep::Continue);
    let mut steps = 0;
    loop {
        let step = e.replace_step(&mut sess, 80, 24);
        steps += 1;
        if step == ReplaceStep::Done || steps > 10 {
            break;
        }
    }
    assert_eq!(e.buffer_text(), "xy b xy");
    assert_eq!(e.status_message, "Replaced 2 occurrences");
}

#[test]
fn replacing_one_and_skipping_one() {
    let mut e = editor_on("a a", None);
    let mut sess = e.begin_replace(String::from("a"), String::from("b"));
    assert_eq!(e.replace_step(&mut sess, 80, 24), ReplaceStep::Ask);
    assert_eq!(e.replace_answer(&mut sess, Some('n')), ReplaceStep::Continue);
    assert_eq!(e.replace_step(&mut sess, 80, 24), ReplaceStep::Ask);
    assert_eq!(e.replace_answer(&mut sess, Some('y')), ReplaceStep::Continue);
    let mut steps = 0;
    loop {
        let step = e.replace_step(&mut sess, 80, 24);
        steps += 1;
        if step == ReplaceStep::Done || steps > 10 {
            break;
        }
        if step == ReplaceStep::Ask {
            e.replace_answer(&mut sess, Some('n'));
        }
    }
    assert_eq!(e.buffer_text(), "a b");
    assert_eq!(e.status_message, "Replaced 1 occurrences");
}

#[test]
fn justified_text_fills_lines_of_72_bytes() {
    let words: Vec<char> = "  one   two\nthree  ".chars().collect();
    let out: String = justify_text(&words).into_iter().collect();
    assert_eq!(out, "one two three\n");
}

#[test]
fn find_from_finds_the_first_match_at_or_after() {
    let t: Vec<char> = "abcabc".chars().collect();
    let q: Vec<char> = "bc".chars().collect();
    assert_eq!(find_from(&t, &q, 0), Some(1));
    assert_eq!(find_from(&t, &q, 2), Some(4));
    assert_eq!(find_from(&t, &q, 5), None);
}
