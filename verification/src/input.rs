//! Keys, and the one-line text input of the prompts.
use vstd::prelude::*;
use crate::text::{char_is_control, chars_of, is_control, string_of};

verus! {

/// A key, as the editor distinguishes them.
#[derive(PartialEq, Eq, Structural, Clone, Copy, Debug)]
pub enum KeyCode {
    Char(char),
    F(u8),
    Enter,
    Backspace,
    Delete,
    Tab,
    Esc,
    Left,
    Right,
    Up,
    Down,
    PageUp,
    PageDown,
    Other,
}

/// A key press with the Control and Alt (Meta) modifiers.
#[derive(PartialEq, Eq, Structural, Clone, Copy, Debug)]
pub struct KeyInput {
    pub code: KeyCode,
    pub ctrl: bool,
    pub alt: bool,
}

/// A line of text being typed, with a cursor in it.
pub struct LineInput {
    pub chars: Vec<char>,
    pub cursor: usize,
}

/// What a key does to a line input.
#[derive(PartialEq, Eq, Structural, Clone, Copy, Debug)]
pub enum InputOutcome {
    /// Keep editing.
    Editing,
    /// Enter: the input is done.
    Submit,
    /// Esc or Ctrl+C: the input is abandoned.
    Cancel,
    /// Ctrl+T where a file browser is offered.
    Browse,
}

/// The key is Control plus `c`.
pub open spec fn is_ctrl_char(key: KeyInput, c: char) -> bool {
    key.code == KeyCode::Char(c) && key.ctrl
}

/// What `key` does to a line input: the outcome, and the chars and cursor
/// after it.
pub open spec fn input_after(chars: Seq<char>, cursor: nat, key: KeyInput, allow_browser: bool) -> (
    InputOutcome,
    Seq<char>,
    nat,
) {
    if key.code == KeyCode::Enter {
        (InputOutcome::Submit, chars, cursor)
    } else if key.code == KeyCode::Esc || is_ctrl_char(key, 'c') {
        (InputOutcome::Cancel, chars, cursor)
    } else if allow_browser && is_ctrl_char(key, 't') {
        (InputOutcome::Browse, chars, cursor)
    } else if key.code == KeyCode::Left || is_ctrl_char(key, 'b') {
        (InputOutcome::Editing, chars, if cursor > 0 { (cursor - 1) as nat } else { 0 })
    } else if key.code == KeyCode::Right || is_ctrl_char(key, 'f') {
        (InputOutcome::Editing, chars, if cursor < chars.len() { cursor + 1 } else { cursor })
    } else if key.code == KeyCode::Backspace {
        if cursor > 0 {
            (InputOutcome::Editing, chars.remove(cursor - 1), (cursor - 1) as nat)
        } else {
            (InputOutcome::Editing, chars, cursor)
        }
    } else if key.code == KeyCode::Delete || is_ctrl_char(key, 'd') {
        if cursor < chars.len() {
            (InputOutcome::Editing, chars.remove(cursor as int), cursor)
        } else {
            (InputOutcome::Editing, chars, cursor)
        }
    } else {
        match key.code {
            KeyCode::Char(c) => if !char_is_control(c) {
                (InputOutcome::Editing, chars.insert(cursor as int, c), cursor + 1)
            } else {
                (InputOutcome::Editing, chars, cursor)
            },
            _ => (InputOutcome::Editing, chars, cursor),
        }
    }
}

impl LineInput {
    /// The cursor lies within the text.
    pub open spec fn wf(&self) -> bool {
        self.cursor <= self.chars.len()
    }

    /// A line input holding `initial`, the cursor at its end.
    pub fn new(initial: &str) -> (r: LineInput)
        ensures
            r.wf(),
            r.chars@ == initial@,
            r.cursor == initial@.len(),
    {
        let chars = chars_of(initial);
        let cursor = chars.len();
        LineInput { chars, cursor }
    }

    /// The text typed so far.
    pub fn text(&self) -> (s: String)
        ensures
            s@ == self.chars@,
    {
        string_of(&self.chars)
    }

    /// What a finished input gives: the text typed, or nothing when it is
    /// empty.
    pub fn submitted(&self) -> (r: Option<String>)
        ensures
            r is Some <==> self.chars@.len() > 0,
            r matches Some(t) ==> t@ == self.chars@,
    {
        if self.chars.len() == 0 {
            None
        } else {
            Some(self.text())
        }
    }

    /// Applies a key: Enter submits; Esc and Ctrl+C cancel; Ctrl+T asks
    /// for the file browser where one is offered; Left/Ctrl+B and
    /// Right/Ctrl+F move; Backspace deletes before the cursor, Delete and
    /// Ctrl+D at it; any other non-control char is inserted (whatever the
    /// modifiers).
    pub fn apply(&mut self, key: KeyInput, allow_browser: bool) -> (o: InputOutcome)
        requires
            old(self).wf(),
            old(self).chars.len() < usize::MAX,
        ensures
            final(self).wf(),
            (o, final(self).chars@, final(self).cursor as nat) == input_after(
                old(self).chars@,
                old(self).cursor as nat,
                key,
                allow_browser,
            ),
    {
        if key.code == KeyCode::Enter {
            return InputOutcome::Submit;
        }
        if key.code == KeyCode::Esc || (key.code == KeyCode::Char('c') && key.ctrl) {
            return InputOutcome::Cancel;
        }
        if allow_browser && key.code == KeyCode::Char('t') && key.ctrl {
            return InputOutcome::Browse;
        }
        if key.code == KeyCode::Left || (key.code == KeyCode::Char('b') && key.ctrl) {
            if self.cursor > 0 {
                self.cursor -= 1;
            }
            return InputOutcome::Editing;
        }
        if key.code == KeyCode::Right || (key.code == KeyCode::Char('f') && key.ctrl) {
            if self.cursor < self.chars.len() {
                self.cursor += 1;
            }
            return InputOutcome::Editing;
        }
        if key.code == KeyCode::Backspace {
            if self.cursor > 0 {
                self.cursor -= 1;
                self.chars.remove(self.cursor);
            }
            return InputOutcome::Editing;
        }
        if key.code == KeyCode::Delete || (key.code == KeyCode::Char('d') && key.ctrl) {
            if self.cursor < self.chars.len() {
                self.chars.remove(self.cursor);
            }
            return InputOutcome::Editing;
        }
        match key.code {
            KeyCode::Char(c) => {
                if !is_control(c) {
                    self.chars.insert(self.cursor, c);
                    self.cursor += 1;
                }
            },
            _ => {},
        }
        InputOutcome::Editing
    }
}

/// The answer that a key gives to a yes/no question: `Some(Some(true))`
/// for y or Y, `Some(Some(false))` for n or N, `Some(None)` for Esc or
/// Ctrl+C (cancelled), `None` for any other key (keep asking).
pub open spec fn yes_no_spec(key: KeyInput) -> Option<Option<bool>> {
    if key.code == KeyCode::Char('y') || key.code == KeyCode::Char('Y') {
        Some(Some(true))
    } else if key.code == KeyCode::Char('n') || key.code == KeyCode::Char('N') {
        Some(Some(false))
    } else if key.code == KeyCode::Esc || is_ctrl_char(key, 'c') {
        Some(None)
    } else {
        None
    }
}

/// The answer that a key gives to a yes/no question.
pub fn yes_no_answer(key: KeyInput) -> (r: Option<Option<bool>>)
    ensures
        r == yes_no_spec(key),
{
    if key.code == KeyCode::Char('y') || key.code == KeyCode::Char('Y') {
        Some(Some(true))
    } else if key.code == KeyCode::Char('n') || key.code == KeyCode::Char('N') {
        Some(Some(false))
    } else if key.code == KeyCode::Esc || (key.code == KeyCode::Char('c') && key.ctrl) {
        Some(None)
    } else {
        None
    }
}

/// The answer that a key gives to "Replace this instance?": `y`, `n` or
/// `a` (either case), cancelled on Esc or Ctrl+C, `None` to keep asking.
pub open spec fn replace_choice_spec(key: KeyInput) -> Option<Option<char>> {
    if key.code == KeyCode::Char('y') || key.code == KeyCode::Char('Y') {
        Some(Some('y'))
    } else if key.code == KeyCode::Char('n') || key.code == KeyCode::Char('N') {
        Some(Some('n'))
    } else if key.code == KeyCode::Char('a') || key.code == KeyCode::Char('A') {
        Some(Some('a'))
    } else if key.code == KeyCode::Esc || is_ctrl_char(key, 'c') {
        Some(None)
    } else {
        None
    }
}

/// The answer that a key gives to "Replace this instance?".
pub fn replace_choice(key: KeyInput) -> (r: Option<Option<char>>)
    ensures
        r == replace_choice_spec(key),
{
    if key.code == KeyCode::Char('y') || key.code == KeyCode::Char('Y') {
        Some(Some('y'))
    } else if key.code == KeyCode::Char('n') || key.code == KeyCode::Char('N') {
        Some(Some('n'))
    } else if key.code == KeyCode::Char('a') || key.code == KeyCode::Char('A') {
        Some(Some('a'))
    } else if key.code == KeyCode::Esc || (key.code == KeyCode::Char('c') && key.ctrl) {
        Some(None)
    } else {
        None
    }
}

} // verus!
