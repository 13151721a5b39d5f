use xnano::config::{ConfigExt, Rgb, ScopeStyle, ThemeColors, UiColors};
use xnano::editor::Editor;

fn editor_with(theme: &str, names: &[&str]) -> Editor {
    let names: Vec<String> = names.iter().map(|s| s.to_string()).collect();
    Editor::new(None, String::new(), &names, (theme.to_string(), false, false), String::new())
}

fn rgb(r: u8, g: u8, b: u8) -> Rgb {
    Rgb { r, g, b }
}

#[test]
fn settings_default_when_the_file_is_empty() {
    assert_eq!(Editor::load_config(""), (String::from("base16-ocean.dark"), false, false));
}

#[test]
fn settings_are_read_line_by_line() {
    let text = "theme=Solarized (dark)\r\nline_numbers=true\nsoft_wrap=yes\nnoise\nother=1";
    assert_eq!(Editor::load_config(text), (String::from("Solarized (dark)"), true, false));
    assert_eq!(Editor::load_config("soft_wrap=true"), (String::from("base16-ocean.dark"), false, true));
    assert_eq!(Editor::load_config("theme=a=b\nline_numbers=true\nline_numbers=false\n"), (String::from("a=b"), false, false));
    assert_eq!(Editor::load_config(" theme=x\n"), (String::from("base16-ocean.dark"), false, false));
}

#[test]
fn settings_read_back_as_written() {
    let mut e = editor_with("InspiredGitHub", &["InspiredGitHub"]);
    e.show_line_numbers = true;
    let text = e.config_text();
    assert_eq!(text, "theme=InspiredGitHub\nline_numbers=true\nsoft_wrap=false\n");
    assert_eq!(Editor::load_config(&text), (String::from("InspiredGitHub"), true, false));
}

#[test]
fn an_unknown_theme_falls_back_to_the_default() {
    let e = editor_with("Nope", &["a", "b"]);
    assert_eq!(e.current_theme, "base16-ocean.dark");
    let e = editor_with("b", &["a", "b"]);
    assert_eq!(e.current_theme, "b");
}

#[test]
fn cycling_takes_the_next_name_in_order() {
    let names: Vec<String> = vec!["beta".into(), "Alpha".into(), "gamma".into()];
    let mut e = editor_with("Alpha", &["beta", "Alpha", "gamma"]);
    assert!(e.cycle_theme(&names));
    assert_eq!(e.current_theme, "beta");
    assert_eq!(e.status_message, "Theme changed to: beta");
    assert!(e.cycle_theme(&names));
    assert_eq!(e.current_theme, "gamma");
    assert!(e.cycle_theme(&names));
    assert_eq!(e.current_theme, "Alpha");
}

#[test]
fn cycling_from_an_unknown_theme_does_nothing() {
    let names: Vec<String> = vec!["a".into(), "b".into()];
    let mut e = editor_with("zzz", &["zzz"]);
    assert!(!e.cycle_theme(&names));
    assert_eq!(e.current_theme, "zzz");
    assert_eq!(e.status_message, "");
}

fn theme(bg: Option<Rgb>, scopes: Vec<ScopeStyle>, name: Option<&str>) -> ThemeColors {
    ThemeColors { background: bg, foreground: None, scopes, name: name.map(|s| s.to_string()) }
}

#[test]
fn dark_theme_colours() {
    let c: UiColors = Editor::derive_ui_colors(&theme(None, vec![], None));
    assert_eq!(c.bg, rgb(0, 0, 0));
    assert_eq!(c.fg, rgb(255, 255, 255));
    assert_eq!(c.menu_bg, rgb(20, 20, 20));
    assert_eq!(c.selected_bg, rgb(40, 40, 40));
    assert_eq!(c.accent, rgb(100, 200, 255));
    assert!(c.is_dark);
}

#[test]
fn light_theme_colours() {
    let c = Editor::derive_ui_colors(&theme(Some(rgb(250, 250, 10)), vec![], None));
    assert!(!c.is_dark);
    assert_eq!(c.menu_bg, rgb(230, 230, 0));
    assert_eq!(c.selected_bg, rgb(210, 210, 0));
    assert_eq!(c.accent, rgb(20, 100, 180));
}

#[test]
fn selection_colour_follows_the_red_part() {
    let c = Editor::derive_ui_colors(&theme(Some(rgb(100, 250, 250)), vec![], None));
    assert!(!c.is_dark);
    assert_eq!(c.selected_bg, rgb(140, 255, 255));
    assert_eq!(c.menu_bg, rgb(80, 230, 230));
}

#[test]
fn accent_comes_from_the_first_matching_scope_with_a_colour() {
    let scopes = vec![
        ScopeStyle { selector: String::from("comment"), foreground: Some(rgb(1, 1, 1)) },
        ScopeStyle { selector: String::from("Variable.Parameter"), foreground: None },
        ScopeStyle { selector: String::from("Entity.Name.Function"), foreground: Some(rgb(7, 8, 9)) },
        ScopeStyle { selector: String::from("variable"), foreground: Some(rgb(3, 3, 3)) },
    ];
    let c = Editor::derive_ui_colors(&theme(None, scopes, Some("Monokai")));
    assert_eq!(c.accent, rgb(7, 8, 9));
}

#[test]
fn named_theme_families_get_their_accent() {
    let c = Editor::derive_ui_colors(&theme(None, vec![], Some("Catppuccin Mocha")));
    assert_eq!(c.accent, rgb(249, 226, 175));
    let c = Editor::derive_ui_colors(&theme(Some(rgb(255, 255, 255)), vec![], Some("catppuccin-latte")));
    assert_eq!(c.accent, rgb(223, 142, 29));
    let c = Editor::derive_ui_colors(&theme(None, vec![], Some("Base16 Ocean Dark")));
    assert_eq!(c.accent, rgb(250, 188, 45));
    let c = Editor::derive_ui_colors(&theme(Some(rgb(200, 200, 200)), vec![], Some("base16-ocean.light")));
    assert_eq!(c.accent, rgb(200, 60, 20));
}
