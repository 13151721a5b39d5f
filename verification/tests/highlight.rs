use syntect::easy::HighlightLines;
use syntect::highlighting::ThemeSet;
use syntect::parsing::SyntaxSet;
use xnano::config::Rgb;
use xnano::editor::Editor;
use xnano::highlight::{line_chars_and_styles, StyledPiece};

fn editor_on(text: &str) -> Editor {
    Editor::new(None, text.to_string(), &vec![], (String::from("base16-ocean.dark"), false, false), String::new())
}

fn piece(text: &str, shade: u8) -> StyledPiece {
    StyledPiece { fg: Rgb { r: shade, g: shade, b: shade }, bg: Rgb { r: 0, g: 0, b: 0 }, text: text.to_string() }
}

#[test]
fn pieces_give_chars_and_their_styles() {
    let pieces = vec![piece("fn", 1), piece("", 2), piece(" mé", 3)];
    let (chars, styles) = line_chars_and_styles(&pieces);
    assert_eq!(chars, vec!['f', 'n', ' ', 'm', 'é']);
    assert_eq!(styles, vec![0, 0, 2, 2, 2]);
}

#[test]
fn pieces_are_checked_against_the_line() {
    let e = editor_on("ab\ncd");
    assert!(e.pieces_match_line(0, &vec![piece("a", 1), piece("b\n", 2)]));
    assert!(!e.pieces_match_line(0, &vec![piece("ab", 1)]));
    assert!(e.pieces_match_line(1, &vec![piece("cd", 1)]));
    assert!(!e.pieces_match_line(2, &vec![]));
}

#[test]
fn a_buffer_line_is_highlighted_whole() {
    let ss = SyntaxSet::load_defaults_newlines();
    let ts = ThemeSet::load_defaults();
    let syntax = ss.find_syntax_by_extension("rs").unwrap();
    let mut h = HighlightLines::new(syntax, &ts.themes["base16-ocean.dark"]);
    let e = editor_on("fn main() { let x = 1; }\n// done");
    let first = e.highlight_buffer_line(&mut h, &ss, 0).unwrap();
    assert!(first.len() > 1);
    let text: String = first.iter().map(|p| p.text.as_str()).collect();
    assert_eq!(text, "fn main() { let x = 1; }\n");
    assert!(e.pieces_match_line(0, &first));
    let second = e.highlight_buffer_line(&mut h, &ss, 1).unwrap();
    let text: String = second.iter().map(|p| p.text.as_str()).collect();
    assert_eq!(text, "// done");
}

#[test]
fn the_selection_runs_from_the_smaller_end() {
    let mut e = editor_on("hello");
    assert_eq!(e.get_selection_range(), None);
    e.mark = Some(4);
    e.move_right();
    assert_eq!(e.get_selection_range(), Some((1, 4)));
    e.mark = Some(0);
    assert_eq!(e.get_selection_range(), Some((0, 1)));
}

#[test]
fn a_highlighted_line_is_laid_out_with_its_styles() {
    let mut e = editor_on("ab\ncd");
    e.mark = Some(1);
    let pieces = vec![piece("a", 1), piece("b\n", 2)];
    let (cells, rows, width) = e.layout_buffer_line(0, &pieces, 80);
    assert_eq!(rows, 1);
    assert_eq!(width, 2);
    assert_eq!(cells.len(), 2);
    assert_eq!((cells[0].ch, cells[0].style), ('a', 0));
    assert_eq!((cells[1].ch, cells[1].style), ('b', 1));
}

#[test]
fn whitespace_and_control_chars_agree_with_std() {
    for u in 0u32..0x110000 {
        if let Some(c) = char::from_u32(u) {
            assert_eq!(xnano::text::is_whitespace(c), c.is_whitespace(), "{:x}", u);
            assert_eq!(xnano::text::is_control(c), c.is_control(), "{:x}", u);
        }
    }
}
