//! What a key press does in the editor: which action a key stands for, and
//! one step of the editor's event loop from the key to the new state and
//! the work left for the caller.
use vstd::prelude::*;
use crate::editor::{Editor, MenuState};
use crate::input::{KeyCode, KeyInput};
use vstd::string::*;
use ropey::Rope;
use crate::lines::{
    cursor_ok, is_line_break, lemma_cr_end_starts_line, lemma_last_line_iff, lemma_start_le_len,
    removed,
};
use crate::rope::{rope_char, rope_len_chars, rope_len_lines, rope_line_to_char, rope_text};
use crate::text::chars_of;

verus! {

/// The editor actions that keys are bound to.
#[derive(PartialEq, Eq, Structural, Clone, Copy, Debug)]
pub enum Action {
    ToggleMark,
    ShowHelp,
    Exit,
    Save,
    ReadFile,
    WhereIs,
    Replace,
    Cut,
    PasteOrUnjustify,
    Justify,
    SpellCheck,
    CurPos,
    GoToLine,
    CycleTheme,
    ToggleLineNumbers,
    ToggleSoftWrap,
    NextMenu,
    OpenUpdate,
    PageUp,
    PageDown,
    Left,
    Right,
    Up,
    Down,
    LineStart,
    LineEnd,
    DeleteChar,
    Tab,
    WordLeft,
    WordRight,
    Type(char),
    Enter,
    Backspace,
    Unbound,
}

/// The action bound to a char key with the given modifiers; the bindings
/// are tried in order, so that, say, Meta+A marks even with Control held.
#[verifier::opaque]
pub open spec fn char_action(c: char, ctrl: bool, alt: bool) -> Action {
    if ctrl && (c == '^' || c == '6') {
        Action::ToggleMark
    } else if alt && c == 'a' {
        Action::ToggleMark
    } else if ctrl && (c == 'g' || c == 'h') {
        Action::ShowHelp
    } else if ctrl && c == 'x' {
        Action::Exit
    } else if ctrl && c == 'o' {
        Action::Save
    } else if ctrl && c == 'r' {
        Action::ReadFile
    } else if ctrl && c == 'w' {
        Action::WhereIs
    } else if ctrl && (c == '\\' || c == '4') {
        Action::Replace
    } else if ctrl && c == 'k' {
        Action::Cut
    } else if ctrl && c == 'u' {
        Action::PasteOrUnjustify
    } else if ctrl && c == 'j' {
        Action::Justify
    } else if ctrl && c == 't' {
        Action::SpellCheck
    } else if ctrl && c == 'c' {
        Action::CurPos
    } else if ctrl && c == 'l' {
        Action::GoToLine
    } else if alt && c == 't' {
        Action::CycleTheme
    } else if alt && c == 'l' {
        Action::ToggleLineNumbers
    } else if alt && c == 's' {
        Action::ToggleSoftWrap
    } else if alt && c == 'o' {
        Action::NextMenu
    } else if alt && c == 'u' {
        Action::OpenUpdate
    } else if (ctrl && c == 'y') || (alt && c == 'p') {
        Action::PageUp
    } else if (ctrl && c == 'v') || (alt && c == 'n') {
        Action::PageDown
    } else if ctrl && c == 'b' {
        Action::Left
    } else if ctrl && c == 'f' {
        Action::Right
    } else if ctrl && c == 'p' {
        Action::Up
    } else if ctrl && c == 'n' {
        Action::Down
    } else if ctrl && c == 'a' {
        Action::LineStart
    } else if ctrl && c == 'e' {
        Action::LineEnd
    } else if ctrl && c == 'd' {
        Action::DeleteChar
    } else if ctrl && c == 'i' {
        Action::Tab
    } else if alt && c == 'b' {
        Action::WordLeft
    } else if alt && c == 'f' {
        Action::WordRight
    } else if !ctrl && !alt {
        Action::Type(c)
    } else {
        Action::Unbound
    }
}

/// The action bound to a function key.
pub open spec fn f_action(n: u8) -> Action {
    if n == 1 {
        Action::ShowHelp
    } else if n == 2 {
        Action::Exit
    } else if n == 3 {
        Action::Save
    } else if n == 4 {
        Action::Justify
    } else if n == 5 {
        Action::ReadFile
    } else if n == 6 {
        Action::WhereIs
    } else if n == 7 {
        Action::PageUp
    } else if n == 8 {
        Action::PageDown
    } else if n == 9 {
        Action::Cut
    } else if n == 10 {
        Action::PasteOrUnjustify
    } else if n == 11 {
        Action::CurPos
    } else if n == 12 {
        Action::SpellCheck
    } else {
        Action::Unbound
    }
}

/// The action bound to a key with the given modifiers.
pub open spec fn key_action(code: KeyCode, ctrl: bool, alt: bool) -> Action {
    match code {
        KeyCode::Char(c) => char_action(c, ctrl, alt),
        KeyCode::F(n) => f_action(n),
        KeyCode::PageUp => Action::PageUp,
        KeyCode::PageDown => Action::PageDown,
        KeyCode::Delete => Action::DeleteChar,
        KeyCode::Tab => Action::Tab,
        KeyCode::Left => if ctrl || alt {
            Action::WordLeft
        } else {
            Action::Left
        },
        KeyCode::Right => if ctrl || alt {
            Action::WordRight
        } else {
            Action::Right
        },
        KeyCode::Up => Action::Up,
        KeyCode::Down => Action::Down,
        KeyCode::Enter => Action::Enter,
        KeyCode::Backspace => Action::Backspace,
        _ => Action::Unbound,
    }
}

/// The action bound to a char key with the given modifiers.
pub fn decode_char(c: char, ctrl: bool, alt: bool) -> (a: Action)
    ensures
        a == char_action(c, ctrl, alt),
{
    reveal(char_action);
    if ctrl && (c == '^' || c == '6') {
        Action::ToggleMark
    } else if alt && c == 'a' {
        Action::ToggleMark
    } else if ctrl && (c == 'g' || c == 'h') {
        Action::ShowHelp
    } else if ctrl && c == 'x' {
        Action::Exit
    } else if ctrl && c == 'o' {
        Action::Save
    } else if ctrl && c == 'r' {
        Action::ReadFile
    } else if ctrl && c == 'w' {
        Action::WhereIs
    } else if ctrl && (c == '\\' || c == '4') {
        Action::Replace
    } else if ctrl && c == 'k' {
        Action::Cut
    } else if ctrl && c == 'u' {
        Action::PasteOrUnjustify
    } else if ctrl && c == 'j' {
        Action::Justify
    } else if ctrl && c == 't' {
        Action::SpellCheck
    } else if ctrl && c == 'c' {
        Action::CurPos
    } else if ctrl && c == 'l' {
        Action::GoToLine
    } else if alt && c == 't' {
        Action::CycleTheme
    } else if alt && c == 'l' {
        Action::ToggleLineNumbers
    } else if alt && c == 's' {
        Action::ToggleSoftWrap
    } else if alt && c == 'o' {
        Action::NextMenu
    } else if alt && c == 'u' {
        Action::OpenUpdate
    } else if (ctrl && c == 'y') || (alt && c == 'p') {
        Action::PageUp
    } else if (ctrl && c == 'v') || (alt && c == 'n') {
        Action::PageDown
    } else if ctrl && c == 'b' {
        Action::Left
    } else if ctrl && c == 'f' {
        Action::Right
    } else if ctrl && c == 'p' {
        Action::Up
    } else if ctrl && c == 'n' {
        Action::Down
    } else if ctrl && c == 'a' {
        Action::LineStart
    } else if ctrl && c == 'e' {
        Action::LineEnd
    } else if ctrl && c == 'd' {
        Action::DeleteChar
    } else if ctrl && c == 'i' {
        Action::Tab
    } else if alt && c == 'b' {
        Action::WordLeft
    } else if alt && c == 'f' {
        Action::WordRight
    } else if !ctrl && !alt {
        Action::Type(c)
    } else {
        Action::Unbound
    }
}

/// The action bound to a key with the given modifiers.
pub fn decode_key(code: KeyCode, ctrl: bool, alt: bool) -> (a: Action)
    ensures
        a == key_action(code, ctrl, alt),
{
    match code {
        KeyCode::Char(c) => decode_char(c, ctrl, alt),
        KeyCode::F(n) => {
            if n == 1 {
                Action::ShowHelp
            } else if n == 2 {
                Action::Exit
            } else if n == 3 {
                Action::Save
            } else if n == 4 {
                Action::Justify
            } else if n == 5 {
                Action::ReadFile
            } else if n == 6 {
                Action::WhereIs
            } else if n == 7 {
                Action::PageUp
            } else if n == 8 {
                Action::PageDown
            } else if n == 9 {
                Action::Cut
            } else if n == 10 {
                Action::PasteOrUnjustify
            } else if n == 11 {
                Action::CurPos
            } else if n == 12 {
                Action::SpellCheck
            } else {
                Action::Unbound
            }
        },
        KeyCode::PageUp => Action::PageUp,
        KeyCode::PageDown => Action::PageDown,
        KeyCode::Delete => Action::DeleteChar,
        KeyCode::Tab => Action::Tab,
        KeyCode::Left => if ctrl || alt {
            Action::WordLeft
        } else {
            Action::Left
        },
        KeyCode::Right => if ctrl || alt {
            Action::WordRight
        } else {
            Action::Right
        },
        KeyCode::Up => Action::Up,
        KeyCode::Down => Action::Down,
        KeyCode::Enter => Action::Enter,
        KeyCode::Backspace => Action::Backspace,
        _ => Action::Unbound,
    }
}

/// What is left to the caller after a key press: nothing but redrawing
/// (`Done`), nothing at all (`Pending`: an Esc that waits for the next key,
/// which it turns into a Meta key), writing the settings file, opening the
/// download page, or an action that needs the terminal, the files or the
/// theme list.
#[derive(PartialEq, Eq, Structural, Clone, Copy, Debug)]
pub enum Command {
    Pending,
    Done,
    SaveConfig,
    OpenUpdatePage,
    ShowHelp,
    Exit,
    Save,
    ReadFile,
    WhereIs,
    Replace,
    SpellCheck,
    GoToLine,
    CycleTheme,
}

/// The command left to the caller once action `a` is done; `update_pending`
/// says whether a newer version was announced.
pub open spec fn command_for(a: Action, update_pending: bool) -> Command {
    match a {
        Action::ShowHelp => Command::ShowHelp,
        Action::Exit => Command::Exit,
        Action::Save => Command::Save,
        Action::ReadFile => Command::ReadFile,
        Action::WhereIs => Command::WhereIs,
        Action::Replace => Command::Replace,
        Action::SpellCheck => Command::SpellCheck,
        Action::GoToLine => Command::GoToLine,
        Action::CycleTheme => Command::CycleTheme,
        Action::ToggleLineNumbers => Command::SaveConfig,
        Action::ToggleSoftWrap => Command::SaveConfig,
        Action::OpenUpdate => if update_pending {
            Command::OpenUpdatePage
        } else {
            Command::Done
        },
        _ => Command::Done,
    }
}

/// The menu page that Meta+O turns to: the three pages in a ring, any
/// other menu back to the first page.
pub open spec fn next_menu(m: MenuState) -> MenuState {
    match m {
        MenuState::Menu1 => MenuState::Menu2,
        MenuState::Menu2 => MenuState::Menu3,
        _ => MenuState::Menu1,
    }
}

/// The command left to the caller once action `a` is done.
pub fn command_of(a: Action, update_pending: bool) -> (c: Command)
    ensures
        c == command_for(a, update_pending),
{
    match a {
        Action::ShowHelp => Command::ShowHelp,
        Action::Exit => Command::Exit,
        Action::Save => Command::Save,
        Action::ReadFile => Command::ReadFile,
        Action::WhereIs => Command::WhereIs,
        Action::Replace => Command::Replace,
        Action::SpellCheck => Command::SpellCheck,
        Action::GoToLine => Command::GoToLine,
        Action::CycleTheme => Command::CycleTheme,
        Action::ToggleLineNumbers => Command::SaveConfig,
        Action::ToggleSoftWrap => Command::SaveConfig,
        Action::OpenUpdate => if update_pending {
            Command::OpenUpdatePage
        } else {
            Command::Done
        },
        _ => Command::Done,
    }
}

/// Whether a cursor at offset `x` on line `y` lies within the text of `r`
/// (see `cursor_ok`).
fn cursor_fits(r: &Rope, x: usize, y: usize) -> (b: bool)
    ensures
        b == cursor_ok(rope_text(*r), x as nat, y as nat),
{
    let count = rope_len_lines(r);
    let len = rope_len_chars(r);
    if y == count {
        return x == 0;
    }
    if y > count {
        return false;
    }
    let s = rope_line_to_char(r, y);
    proof {
        lemma_start_le_len(rope_text(*r), y as nat);
    }
    x <= len - s
}


impl Editor {
    /// The state after action `a`, on a screen of `rows` rows, before the
    /// key's bookkeeping; the actions left to the caller change nothing.
    #[verifier::opaque]
    pub open spec fn after_action(pre: Editor, post: Editor, a: Action, rows: u16) -> bool {
        match a {
            Action::ToggleMark => Editor::toggled_mark(pre, post),
            Action::Cut => Editor::cut_done(pre, post),
            Action::PasteOrUnjustify => if pre.is_justified {
                Editor::unjustified_state(pre, post)
            } else {
                Editor::pasted(pre, post)
            },
            Action::Justify => Editor::justified_state(pre, post),
            Action::CurPos => Editor::reported_position(pre, post),
            Action::ToggleLineNumbers => {
                &&& post.status_message@ == if pre.show_line_numbers {
                    "Line numbers disabled"@
                } else {
                    "Line numbers enabled"@
                }
                &&& post == (Editor {
                    show_line_numbers: !pre.show_line_numbers,
                    status_message: post.status_message,
                    status_timed: true,
                    status_fresh: true,
                    ..pre
                })
            },
            Action::ToggleSoftWrap => {
                &&& post.status_message@ == if pre.soft_wrap {
                    "Soft wrap disabled"@
                } else {
                    "Soft wrap enabled"@
                }
                &&& post == (Editor {
                    soft_wrap: !pre.soft_wrap,
                    status_message: post.status_message,
                    status_timed: true,
                    status_fresh: true,
                    ..pre
                })
            },
            Action::NextMenu => post == (Editor { menu_state: next_menu(pre.menu_state), ..pre }),
            Action::OpenUpdate => {
                &&& post.status_message@ == if pre.update_version is Some {
                    "Opened browser to download update."@
                } else {
                    "No update pending."@
                }
                &&& post == (Editor {
                    update_version: None,
                    status_message: post.status_message,
                    status_timed: true,
                    status_fresh: true,
                    ..pre
                })
            },
            Action::PageUp => Editor::paged_up(pre, post, rows),
            Action::PageDown => Editor::paged_down(pre, post, rows),
            Action::Left => Editor::moved_left(pre, post),
            Action::Right => Editor::moved_right(pre, post),
            Action::Up => Editor::moved_up(pre, post),
            Action::Down => Editor::moved_down(pre, post),
            Action::LineStart => Editor::moved_to_line_start(pre, post),
            Action::LineEnd => Editor::moved_to_line_end(pre, post),
            Action::DeleteChar => Editor::deleted_char(pre, post),
            Action::Tab => Editor::inserted_tab(pre, post),
            Action::WordLeft => Editor::moved_word_left(pre, post),
            Action::WordRight => Editor::moved_word_right(pre, post),
            Action::Type(c) => Editor::typed_char(pre, post, c),
            Action::Enter => Editor::inserted_newline(pre, post),
            Action::Backspace => Editor::backspaced(pre, post),
            Action::Unbound => Editor::cleared_status(pre, post),
            _ => post == pre,
        }
    }

    /// The key is an Esc that waits for the next key.
    pub open spec fn esc_waits(&self, key: KeyInput) -> bool {
        !self.escape_pending && key.code == KeyCode::Esc
    }

    /// The action a key stands for: after a waiting Esc, any key counts as
    /// a Meta key.
    pub open spec fn action_for(&self, key: KeyInput) -> Action {
        key_action(key.code, key.ctrl, key.alt || self.escape_pending)
    }

    /// The state a key's action starts from: a search match is no longer
    /// highlighted, and a waiting Esc is used up.
    pub open spec fn key_start(&self) -> Editor {
        Editor { highlight_match: None, escape_pending: false, ..*self }
    }

    /// Action `a` reads the mark: it first deletes the selected text (a
    /// cut does so only in a non-empty text, a paste only with something to
    /// paste and not as the undo of a justify).
    pub open spec fn uses_mark(&self, a: Action) -> bool {
        match a {
            Action::DeleteChar | Action::Tab | Action::Type(_) | Action::Enter
            | Action::Backspace => true,
            Action::Cut => self.text().len() > 0,
            Action::PasteOrUnjustify => !self.is_justified && self.clipboard@.len() > 0,
            _ => false,
        }
    }

    /// Action `a` can be done without leaving the cursor outside the text:
    /// the state is well formed and within bounds, an action that reads the
    /// mark finds it within the text, a typed char, a tab or an Enter
    /// keeps the cursor in the text, a justify does not start past the last
    /// line (where the paragraph search reads a line that does not exist),
    /// and a paste fits.
    pub open spec fn action_ok(&self, a: Action) -> bool {
        &&& self.wf()
        &&& self.within_limits()
        &&& self.uses_mark(a) ==> self.mark_in_text()
        &&& match a {
            Action::Type(c) => self.char_insert_stays_in_text(c),
            Action::Tab => self.insert_stays_in_text(),
            Action::Enter => self.enter_stays_in_text(),
            Action::Justify => !self.past_last_line(),
            Action::PasteOrUnjustify => !self.is_justified ==> self.text().len()
                + self.clipboard@.len() <= usize::MAX,
            _ => true,
        }
    }

    /// The key can be handled: see `action_ok`.
    pub open spec fn keypress_ok(&self, key: KeyInput) -> bool {
        &&& self.wf()
        &&& self.within_limits()
        &&& !self.esc_waits(key) ==> self.key_start().action_ok(self.action_for(key))
    }

    /// The state and the command after a key press on a screen of `rows`
    /// rows: an Esc that waits does nothing else; any other key clears the
    /// search highlight, does its action, and then the buffer counts as
    /// justified only after a justify, and the last action as a cut only
    /// after a cut.
    #[verifier::opaque]
    pub open spec fn keypress_result(
        pre: Editor,
        post: Editor,
        key: KeyInput,
        rows: u16,
        cmd: Command,
    ) -> bool {
        if pre.esc_waits(key) {
            &&& cmd == Command::Pending
            &&& post == (Editor { highlight_match: None, escape_pending: true, ..pre })
        } else {
            let a = pre.action_for(key);
            &&& cmd == command_for(a, pre.update_version is Some)
            &&& exists|m: Editor|
                #![trigger Editor::after_action(pre.key_start(), m, a, rows)]
                Editor::after_action(pre.key_start(), m, a, rows) && post == (Editor {
                    is_justified: a == Action::Justify,
                    previous_action_was_cut: a == Action::Cut,
                    ..m
                })
        }
    }

    /// Handles one key press on a screen of `rows` rows, and says what the
    /// caller still has to do (after which it scrolls the view, unless the
    /// key was an Esc that waits).
    pub fn process_keypress(&mut self, key: KeyInput, rows: u16) -> (cmd: Command)
        requires
            old(self).keypress_ok(key),
        ensures
            final(self).wf(),
            Editor::keypress_result(*old(self), *final(self), key, rows, cmd),
    {
        self.highlight_match = None;
        let mut alt = key.alt;
        if self.escape_pending {
            alt = true;
            self.escape_pending = false;
        } else if key.code == KeyCode::Esc {
            self.escape_pending = true;
            proof {
                Editor::lemma_keypress_waits(*old(self), *self, key, rows);
            }
            return Command::Pending;
        }
        let a = decode_key(key.code, key.ctrl, alt);
        assert(*self == old(self).key_start());
        assert(!old(self).esc_waits(key) && a == old(self).action_for(key));
        let cmd = self.finish_key(a, rows);
        proof {
            Editor::lemma_keypress_done(*old(self), *self, key, rows, cmd, a);
        }
        cmd
    }

    /// The command leaves the cursor, the text and the view settings to
    /// the key's action, so the view can follow the cursor at once: every
    /// command but a waiting Esc and those that prompt, load or save text.
    pub open spec fn keeps_view(cmd: Command) -> bool {
        ||| cmd == Command::Done
        ||| cmd == Command::SaveConfig
        ||| cmd == Command::OpenUpdatePage
        ||| cmd == Command::ShowHelp
        ||| cmd == Command::SpellCheck
        ||| cmd == Command::CycleTheme
    }

    /// Whether the command keeps the view (see `keeps_view`): after any
    /// other command but a waiting Esc, the caller scrolls once it is done.
    pub fn command_keeps_view(cmd: Command) -> (b: bool)
        ensures
            b == Editor::keeps_view(cmd),
    {
        match cmd {
            Command::Done | Command::SaveConfig | Command::OpenUpdatePage | Command::ShowHelp
            | Command::SpellCheck | Command::CycleTheme => true,
            _ => false,
        }
    }

    /// The text and the view's offsets are within the bounds that
    /// scrolling needs.
    pub open spec fn view_fits(&self) -> bool {
        &&& self.within_limits()
        &&& self.row_offset <= usize::MAX / 16
        &&& self.col_offset <= usize::MAX / 16
    }

    /// The state scrolled so that the cursor is on a screen `cols` wide and
    /// `rows` high (see `scrolled`).
    pub open spec fn scrolled_state(&self, cols: u16, rows: u16) -> Editor {
        Editor {
            row_offset: self.scrolled(cols, rows).0 as usize,
            col_offset: self.scrolled(cols, rows).1 as usize,
            ..*self
        }
    }

    /// The state after a key press and the scroll that follows it: a well
    /// formed state, the key's result (see `keypress_result`) scrolled when
    /// the command keeps the view and the bounds allow; a waiting Esc, or a
    /// command left to the caller, is not scrolled here.
    pub open spec fn key_handled(
        pre: Editor,
        post: Editor,
        key: KeyInput,
        cols: u16,
        rows: u16,
        cmd: Command,
    ) -> bool {
        &&& post.wf()
        &&& exists|m: Editor|
            #![trigger Editor::keypress_result(pre, m, key, rows, cmd)]
            Editor::keypress_result(pre, m, key, rows, cmd) && post == if Editor::keeps_view(cmd)
                && m.view_fits() {
                m.scrolled_state(cols, rows)
            } else {
                m
            }
    }

    /// Handles one key press on a screen `cols` wide and `rows` high, and
    /// then scrolls the view to the cursor unless the command is left to
    /// the caller (who scrolls after it) or the key is a waiting Esc.
    pub fn handle_key(&mut self, key: KeyInput, cols: u16, rows: u16) -> (cmd: Command)
        requires
            old(self).keypress_ok(key),
        ensures
            final(self).wf(),
            Editor::key_handled(*old(self), *final(self), key, cols, rows, cmd),
    {
        let cmd = self.process_keypress(key, rows);
        let ghost m = *self;
        let keep = match cmd {
            Command::Done | Command::SaveConfig | Command::OpenUpdatePage | Command::ShowHelp
            | Command::SpellCheck | Command::CycleTheme => true,
            _ => false,
        };
        if keep && self.scroll_allowed() {
            self.scroll(cols, rows);
        }
        proof {
            assert(Editor::keypress_result(*old(self), m, key, rows, cmd));
        }
        cmd
    }

    /// The state after action `a` and the key's bookkeeping, and the
    /// command left to the caller.
    #[verifier::opaque]
    pub open spec fn action_done(pre: Editor, post: Editor, a: Action, rows: u16, cmd: Command) -> bool {
        &&& cmd == command_for(a, pre.update_version is Some)
        &&& exists|m: Editor|
            #![trigger Editor::after_action(pre, m, a, rows)]
            Editor::after_action(pre, m, a, rows) && post == (Editor {
                is_justified: a == Action::Justify,
                previous_action_was_cut: a == Action::Cut,
                ..m
            })
    }

    /// Does action `a`, then notes whether the buffer stays justified and
    /// whether the action was a cut.
    fn finish_key(&mut self, a: Action, rows: u16) -> (cmd: Command)
        requires
            old(self).action_ok(a),
        ensures
            final(self).wf(),
            Editor::action_done(*old(self), *final(self), a, rows, cmd),
    {
        let update_pending = self.update_version.is_some();
        self.apply_action(a, rows);
        let ghost m = *self;
        self.is_justified = a == Action::Justify;
        self.previous_action_was_cut = a == Action::Cut;
        let cmd = command_of(a, update_pending);
        proof {
            reveal(Editor::action_done);
            assert(Editor::after_action(*old(self), m, a, rows));
        }
        cmd
    }
    /// Does action `a` on a screen of `rows` rows (the actions left to the
    /// caller change nothing).
    pub fn apply_action(&mut self, a: Action, rows: u16)
        requires
            old(self).action_ok(a),
        ensures
            final(self).wf(),
            Editor::after_action(*old(self), *final(self), a, rows),
    {
        reveal(Editor::after_action);
        match a {
            Action::ToggleMark | Action::CurPos | Action::ToggleLineNumbers | Action::ToggleSoftWrap
            | Action::NextMenu | Action::OpenUpdate | Action::Unbound => self.apply_setting(a, rows),
            Action::Cut | Action::PasteOrUnjustify | Action::Justify | Action::DeleteChar
            | Action::Tab | Action::Type(_) | Action::Enter | Action::Backspace => self.apply_edit(
                a,
                rows,
            ),
            Action::PageUp | Action::PageDown | Action::Left | Action::Right | Action::Up
            | Action::Down | Action::LineStart | Action::LineEnd | Action::WordLeft
            | Action::WordRight => self.apply_move(a, rows),
            _ => {},
        }
    }

    /// Does an action that changes the text.
    #[verifier::spinoff_prover]
    fn apply_edit(&mut self, a: Action, rows: u16)
        requires
            old(self).action_ok(a),
            a is Cut || a is PasteOrUnjustify || a is Justify || a is DeleteChar || a is Tab
                || a is Type || a is Enter || a is Backspace,
        ensures
            final(self).wf(),
            Editor::after_action(*old(self), *final(self), a, rows),
    {
        reveal(Editor::after_action);
        match a {
            Action::Cut => self.cut_line(),
            Action::PasteOrUnjustify => {
                if self.is_justified {
                    self.unjustify();
                } else {
                    self.paste_line();
                }
            },
            Action::Justify => self.justify(),
            Action::DeleteChar => self.delete_char(),
            Action::Tab => self.insert_tab(),
            Action::Type(c) => self.insert_typed_char(c),
            Action::Enter => self.insert_newline(),
            Action::Backspace => self.backspace(),
            _ => {},
        }
    }

    /// Does an action that moves the cursor.
    #[verifier::spinoff_prover]
    fn apply_move(&mut self, a: Action, rows: u16)
        requires
            old(self).action_ok(a),
            a is PageUp || a is PageDown || a is Left || a is Right || a is Up || a is Down
                || a is LineStart || a is LineEnd || a is WordLeft || a is WordRight,
        ensures
            final(self).wf(),
            Editor::after_action(*old(self), *final(self), a, rows),
    {
        reveal(Editor::after_action);
        match a {
            Action::PageUp => self.page_up(rows),
            Action::PageDown => self.page_down(rows),
            Action::Left => self.move_left(),
            Action::Right => self.move_right(),
            Action::Up => self.move_up(),
            Action::Down => self.move_down(),
            Action::LineStart => self.move_to_start_of_line(),
            Action::LineEnd => self.move_to_end_of_line(),
            Action::WordLeft => self.move_word_left(),
            Action::WordRight => self.move_word_right(),
            _ => {},
        }
    }

    /// Does an action on the mark, the status line or the settings.
    #[verifier::spinoff_prover]
    fn apply_setting(&mut self, a: Action, rows: u16)
        requires
            old(self).action_ok(a),
            a is ToggleMark || a is CurPos || a is ToggleLineNumbers || a is ToggleSoftWrap
                || a is NextMenu || a is OpenUpdate || a is Unbound,
        ensures
            final(self).wf(),
            Editor::after_action(*old(self), *final(self), a, rows),
    {
        reveal(Editor::after_action);
        match a {
            Action::ToggleMark => self.toggle_mark(),
            Action::CurPos => self.cur_pos(),
            Action::ToggleLineNumbers => {
                self.show_line_numbers = !self.show_line_numbers;
                if self.show_line_numbers {
                    self.set_status(String::from_str("Line numbers enabled"));
                } else {
                    self.set_status(String::from_str("Line numbers disabled"));
                }
            },
            Action::ToggleSoftWrap => {
                self.soft_wrap = !self.soft_wrap;
                if self.soft_wrap {
                    self.set_status(String::from_str("Soft wrap enabled"));
                } else {
                    self.set_status(String::from_str("Soft wrap disabled"));
                }
            },
            Action::NextMenu => {
                self.menu_state = match self.menu_state {
                    MenuState::Menu1 => MenuState::Menu2,
                    MenuState::Menu2 => MenuState::Menu3,
                    _ => MenuState::Menu1,
                };
            },
            Action::OpenUpdate => {
                if self.update_version.take().is_some() {
                    self.set_status(String::from_str("Opened browser to download update."));
                } else {
                    self.set_status(String::from_str("No update pending."));
                }
            },
            Action::Unbound => self.clear_status(),
            _ => {},
        }
    }
    /// The result of a key press that is an Esc waiting for the next key.
    pub proof fn lemma_keypress_waits(pre: Editor, post: Editor, key: KeyInput, rows: u16)
        requires
            pre.esc_waits(key),
            post == (Editor { highlight_match: None, escape_pending: true, ..pre }),
        ensures
            Editor::keypress_result(pre, post, key, rows, Command::Pending),
    {
        reveal(Editor::keypress_result);
    }

    /// The result of a key press whose action led from the start state to
    /// `m`.
    pub proof fn lemma_keypress_done(
        pre: Editor,
        post: Editor,
        key: KeyInput,
        rows: u16,
        cmd: Command,
        a: Action,
    )
        requires
            !pre.esc_waits(key),
            a == pre.action_for(key),
            Editor::action_done(pre.key_start(), post, a, rows, cmd),
        ensures
            Editor::keypress_result(pre, post, key, rows, cmd),
    {
        reveal(Editor::keypress_result);
        reveal(Editor::action_done);
    }
    /// A key's start state allows what the state itself allows.
    pub proof fn lemma_start_ok(e: Editor, a: Action)
        ensures
            e.key_start().action_ok(a) == e.action_ok(a),
    {
        let s = e.key_start();
        assert(s.text() == e.text());
        assert(s.selection_span() == e.selection_span());
        assert(s.text_without_selection() == e.text_without_selection());
        assert(s.index_without_selection() == e.index_without_selection());
        assert(s.line_without_selection() == e.line_without_selection());
    }

    /// Whether the state is well formed (see `wf`).
    pub fn is_well_formed(&self) -> (b: bool)
        ensures
            b == self.wf(),
    {
        let _len = rope_len_chars(&self.buffer);
        if !cursor_fits(&self.buffer, self.cursor_x, self.cursor_y) {
            return false;
        }
        match &self.pre_justify_snapshot {
            Some(snap) => {
                let _snap_len = rope_len_chars(&snap.0);
                if !cursor_fits(&snap.0, snap.1, snap.2) {
                    return false;
                }
            },
            None => {},
        }
        match &self.last_search {
            Some(l) => {
                let v = chars_of(l.as_str());
                v.len() > 0
            },
            None => true,
        }
    }

    /// The ends of the selection, or the cursor index twice when nothing
    /// is selected.
    fn edit_span(&self) -> (r: (usize, usize))
        requires
            self.wf(),
            self.mark_in_text(),
        ensures
            r.0 == self.index_without_selection(),
            r.0 <= r.1 <= self.text().len(),
            self.has_selection() ==> self.selection_span() == Some((r.0 as nat, r.1 as nat)),
            self.has_selection() <==> r.0 < r.1,
    {
        let i = self.get_cursor_char_idx();
        match self.mark {
            Some(m) => {
                if m < i {
                    (m, i)
                } else if i < m {
                    (i, m)
                } else {
                    (i, i)
                }
            },
            None => (i, i),
        }
    }

    /// Whether inserting at the cursor keeps it in the text (see
    /// `insert_stays_in_text`).
    pub fn insert_ok(&self) -> (b: bool)
        requires
            self.wf(),
            self.mark_in_text(),
        ensures
            b == self.insert_stays_in_text(),
    {
        let (a, b) = self.edit_span();
        let count = rope_len_lines(&self.buffer);
        a < b || self.cursor_y != count
    }

    /// Whether typing `c` keeps the cursor in the text (see
    /// `char_insert_stays_in_text`).
    pub fn typed_char_ok(&self, c: char) -> (b: bool)
        requires
            self.wf(),
            self.mark_in_text(),
        ensures
            b == self.char_insert_stays_in_text(c),
    {
        if !self.insert_ok() {
            return false;
        }
        if c != '\n' {
            return true;
        }
        let (a, b) = self.edit_span();
        let len = rope_len_chars(&self.buffer);
        let ghost t = self.text();
        let ghost t2 = self.text_without_selection();
        proof {
            if a < b {
                assert(t2 == removed(t, a as int, b as int));
                assert(t2.len() == t.len() - (b - a));
            }
        }
        if a == 0 {
            return true;
        }
        let before = rope_char(&self.buffer, a - 1);
        proof {
            if a < b {
                assert(t2[a - 1] == t[a - 1]);
            }
        }
        if !(before == '\r' && b == len) {
            return true;
        }
        if a < b {
            proof {
                lemma_cr_end_starts_line(t2);
            }
            false
        } else {
            self.cursor_x != 0
        }
    }

    /// Whether Enter keeps the cursor in the text (see
    /// `enter_stays_in_text`).
    pub fn enter_ok(&self) -> (b: bool)
        requires
            self.wf(),
            self.mark_in_text(),
        ensures
            b == self.enter_stays_in_text(),
    {
        let (a, b) = self.edit_span();
        let count = rope_len_lines(&self.buffer);
        let len = rope_len_chars(&self.buffer);
        if a < b || self.cursor_y != count || len == 0 {
            return true;
        }
        rope_char(&self.buffer, len - 1) != '\r'
    }

    /// Whether the key can be handled (see `keypress_ok`).
    pub fn keypress_allowed(&self, key: KeyInput) -> (ok: bool)
        ensures
            ok == self.keypress_ok(key),
    {
        if !self.is_well_formed() {
            return false;
        }
        let len = rope_len_chars(&self.buffer);
        if len > usize::MAX / 16 {
            return false;
        }
        if !self.escape_pending && key.code == KeyCode::Esc {
            return true;
        }
        let alt = key.alt || self.escape_pending;
        let a = decode_key(key.code, key.ctrl, alt);
        proof {
            Editor::lemma_start_ok(*self, a);
        }
        let mark_in_text = match self.mark {
            Some(m) => m <= len,
            None => true,
        };
        let uses_mark = match a {
            Action::DeleteChar | Action::Tab | Action::Type(_) | Action::Enter
            | Action::Backspace => true,
            Action::Cut => len > 0,
            Action::PasteOrUnjustify => !self.is_justified && chars_of(self.clipboard.as_str()).len()
                > 0,
            _ => false,
        };
        if uses_mark && !mark_in_text {
            return false;
        }
        match a {
            Action::Type(c) => self.typed_char_ok(c),
            Action::Tab => self.insert_ok(),
            Action::Enter => self.enter_ok(),
            Action::Justify => self.cursor_y != rope_len_lines(&self.buffer),
            Action::PasteOrUnjustify => {
                if self.is_justified {
                    true
                } else {
                    let clip = chars_of(self.clipboard.as_str());
                    clip.len() <= usize::MAX - len
                }
            },
            _ => true,
        }
    }
    /// Whether the view can be scrolled: the state is well formed and
    /// within bounds, and so are the offsets (see `scroll`).
    pub fn scroll_allowed(&self) -> (b: bool)
        ensures
            b == (self.wf() && self.within_limits() && self.row_offset <= usize::MAX / 16
                && self.col_offset <= usize::MAX / 16),
    {
        let len = rope_len_chars(&self.buffer);
        self.is_well_formed() && len <= usize::MAX / 16 && self.row_offset <= usize::MAX / 16
            && self.col_offset <= usize::MAX / 16
    }
}

} // verus!
