use xnano::browser::{browser_entries, browser_row, BrowserEntry};
use xnano::input::{yes_no_answer, replace_choice, InputOutcome, KeyCode, KeyInput, LineInput};
use xnano::render::{layout_line, line_number_text, status_segments, Cell};
use xnano::ui::{browser_key, browser_scroll, clean_prompt, help_scroll, title_bar, BrowserAction};
use xnano::wrap::get_soft_wrap_metrics;

fn key(code: KeyCode, ctrl: bool) -> KeyInput {
    KeyInput { code, ctrl, alt: false }
}

fn entry(name: &str, is_dir: bool) -> BrowserEntry {
    BrowserEntry { name: name.to_string(), is_dir }
}

#[test]
fn the_browser_lists_directories_then_files_then_dot_entries() {
    let raw = vec![
        entry("zeta.txt", false),
        entry(".config", true),
        entry("Beta", true),
        entry("alpha", true),
        entry(".hidden", false),
        entry("Apple.rs", false),
        entry("apple.md", false),
    ];
    let out = browser_entries(true, &raw);
    let names: Vec<(&str, bool)> = out.iter().map(|e| (e.name.as_str(), e.is_dir)).collect();
    assert_eq!(
        names,
        vec![
            (".", true),
            ("..", true),
            ("alpha", true),
            ("Beta", true),
            ("apple.md", false),
            ("Apple.rs", false),
            ("zeta.txt", false),
            (".config", true),
            (".hidden", false),
        ]
    );
}

#[test]
fn equal_names_in_lower_case_keep_their_order() {
    let raw = vec![entry("b", false), entry("A", false), entry("a", false)];
    let out = browser_entries(false, &raw);
    let names: Vec<&str> = out.iter().map(|e| e.name.as_str()).collect();
    assert_eq!(names, vec![".", "A", "a", "b"]);
}

#[test]
fn browser_rows_are_padded_or_cut_to_the_width() {
    assert_eq!(browser_row("src", true, 14), "(dir)  src    ");
    assert_eq!(browser_row("main.rs", false, 10), "       mai");
    assert_eq!(browser_row("héllo", false, 10), "       h\u{e9}");
}

#[test]
fn browser_keys_move_the_highlight() {
    assert_eq!(browser_key(3, 10, 5, key(KeyCode::Up, false)), BrowserAction::Highlight(2));
    assert_eq!(browser_key(0, 10, 5, key(KeyCode::Char('p'), true)), BrowserAction::Highlight(0));
    assert_eq!(browser_key(9, 10, 5, key(KeyCode::Down, false)), BrowserAction::Highlight(9));
    assert_eq!(browser_key(7, 10, 5, key(KeyCode::PageDown, false)), BrowserAction::Highlight(9));
    assert_eq!(browser_key(3, 10, 5, key(KeyCode::PageUp, false)), BrowserAction::Highlight(0));
    assert_eq!(browser_key(3, 10, 5, key(KeyCode::Enter, false)), BrowserAction::Select);
    assert_eq!(browser_key(3, 10, 5, key(KeyCode::Esc, false)), BrowserAction::Cancel);
    assert_eq!(browser_scroll(12, 0, 5), 8);
    assert_eq!(browser_scroll(2, 4, 5), 2);
}

#[test]
fn a_line_is_laid_out_with_tabs_expanded() {
    let text: Vec<char> = "a\tb\n".chars().collect();
    let styles = vec![1, 2, 3, 4];
    let (cells, rows, width) = layout_line(&text, &styles, 0, None, None, false, 80, 0);
    let shown: String = cells.iter().map(|c| c.ch).collect();
    assert_eq!(shown, "a   b");
    assert_eq!(rows, 1);
    assert_eq!(width, 5);
    assert_eq!(cells[1], Cell { row: 0, ch: ' ', style: 2, highlighted: false });
}

#[test]
fn a_scrolled_line_shows_its_window() {
    let text: Vec<char> = "abcdefgh".chars().collect();
    let styles = vec![0; 8];
    let (cells, _, width) = layout_line(&text, &styles, 0, None, None, false, 3, 2);
    let shown: String = cells.iter().map(|c| c.ch).collect();
    assert_eq!(shown, "cde");
    assert_eq!(width, 8);
}

#[test]
fn soft_wrap_breaks_before_a_word_that_does_not_fit() {
    let text: Vec<char> = "hello big world".chars().collect();
    let styles = vec![0; text.len()];
    let (cells, rows, _) = layout_line(&text, &styles, 0, None, None, true, 10, 0);
    let mut lines = vec![String::new(); rows];
    for c in &cells {
        lines[c.row].push(c.ch);
    }
    assert_eq!(lines, vec!["hello big ", "world"]);
    let metrics = get_soft_wrap_metrics(&text, Some(10), 10);
    assert_eq!(metrics, (2, 1, 0));
}

#[test]
fn selection_and_search_match_are_highlighted() {
    let text: Vec<char> = "abcdef".chars().collect();
    let styles = vec![0; 6];
    let (cells, _, _) = layout_line(&text, &styles, 10, Some((11, 13)), None, false, 80, 0);
    let marks: Vec<bool> = cells.iter().map(|c| c.highlighted).collect();
    assert_eq!(marks, vec![false, true, true, false, false, false]);
    let (cells, _, _) = layout_line(&text, &styles, 10, Some((11, 13)), Some((4, 6)), false, 80, 0);
    let marks: Vec<bool> = cells.iter().map(|c| c.highlighted).collect();
    assert_eq!(marks, vec![false, false, false, false, true, true]);
}

#[test]
fn line_numbers_are_right_aligned() {
    assert_eq!(line_number_text(7, 3), "  7 ");
    assert_eq!(line_number_text(1234, 2), "1234 ");
}

#[test]
fn the_status_line_fills_the_width() {
    let segs = status_segments(false, &vec![], "Saved", 8);
    assert_eq!(segs, vec![(String::from("Saved"), true), (String::from("   "), true)]);
    let sugs = vec![String::from("cat"), String::from("car")];
    let segs = status_segments(true, &sugs, "x", 30);
    let texts: Vec<&str> = segs.iter().map(|s| s.0.as_str()).collect();
    assert_eq!(texts, vec!["1", " cat   ", "2", " car   ", "x", "             "]);
    let segs = status_segments(true, &vec![], "x", 10);
    assert_eq!(segs[0], (String::from("No suggestions   "), false));
    assert_eq!(segs[2], (String::new(), true));
}

#[test]
fn the_title_bar_cuts_a_long_path() {
    let (section, pad) = title_bar("xnano (0.1.0) - ", "/a/very/long/path/name.txt", 30, false);
    assert_eq!(section, "/a/very/lon...");
    assert_eq!(pad, 0);
    let (section, pad) = title_bar("t - ", "f", 20, true);
    assert_eq!(section, "f");
    assert_eq!(pad, 3);
}

#[test]
fn bracketed_defaults_are_dropped_from_prompts() {
    assert_eq!(clean_prompt("File name to write [a.txt]: "), "File name to write: ");
    assert_eq!(clean_prompt("Search: "), "Search: ");
}

#[test]
fn yes_no_and_replace_answers() {
    assert_eq!(yes_no_answer(key(KeyCode::Char('Y'), false)), Some(Some(true)));
    assert_eq!(yes_no_answer(key(KeyCode::Char('n'), false)), Some(Some(false)));
    assert_eq!(yes_no_answer(key(KeyCode::Char('c'), true)), Some(None));
    assert_eq!(yes_no_answer(key(KeyCode::Char('q'), false)), None);
    assert_eq!(replace_choice(key(KeyCode::Char('A'), false)), Some(Some('a')));
    assert_eq!(replace_choice(key(KeyCode::Esc, false)), Some(None));
}

#[test]
fn a_line_input_edits_at_its_cursor() {
    let mut input = LineInput::new("abc");
    assert_eq!(input.apply(key(KeyCode::Left, false), false), InputOutcome::Editing);
    assert_eq!(input.apply(key(KeyCode::Char('X'), false), false), InputOutcome::Editing);
    assert_eq!(input.text(), "abXc");
    assert_eq!(input.apply(key(KeyCode::Backspace, false), false), InputOutcome::Editing);
    assert_eq!(input.text(), "abc");
    assert_eq!(input.apply(key(KeyCode::Char('t'), true), true), InputOutcome::Browse);
    assert_eq!(input.apply(key(KeyCode::Enter, false), false), InputOutcome::Submit);
    assert_eq!(input.apply(key(KeyCode::Esc, false), false), InputOutcome::Cancel);
}

#[test]
fn the_help_viewer_scrolls_within_its_text() {
    assert_eq!(help_scroll(0, 10, 50, key(KeyCode::Down, false)), Some(1));
    assert_eq!(help_scroll(40, 10, 50, key(KeyCode::Down, false)), Some(40));
    assert_eq!(help_scroll(35, 10, 50, key(KeyCode::PageDown, false)), Some(40));
    assert_eq!(help_scroll(5, 10, 50, key(KeyCode::PageUp, false)), Some(0));
    assert_eq!(help_scroll(5, 10, 50, key(KeyCode::Char('x'), true)), None);
}
