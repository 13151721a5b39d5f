# xnano

A small terminal text editor in the style of nano, with syntax highlighting,
themes, soft wrap and line numbers.  The editing core is a library verified
with Verus; the program around it (terminal, files, themes, update check)
lives in `app/`.

## Layout

- `src/lines.rs` – the line structure of a text (ropey's line breaks) and
  lemmas about it.
- `src/rope.rs` – the text buffer (`ropey::Rope`) behind contracts.
- `src/editor.rs` – the editor state and its operations: cursor moves,
  edits, cut and paste, justify, scrolling, search and replace.
- `src/keys.rs` – key bindings and one step of the event loop.
- `src/session.rs` – construction, reading and writing files, leaving, the
  loop's timing.
- `src/config.rs` – the settings file, interface colours, theme cycling;
  `src/cycle.rs` – cycling through all themes and back.
- `src/highlight.rs` – syntax highlighting of a buffer line (syntect) and
  the chars and styles it gives the layout.
- `src/render.rs`, `src/wrap.rs`, `src/ui.rs`, `src/browser.rs` – screen
  layout: lines, soft wrap, title, menus, prompts, help and file browser.
- `src/justify.rs`, `src/search.rs`, `src/text.rs`, `src/input.rs` – text
  helpers, paragraph filling, search, and line input.
- `src/laws.rs` – properties across operations (undoing moves, edits and
  justification, key presses followed by scrolling, validity after every
  key).
- `tests/` – tests of the library; `app/main.rs` – the program.
