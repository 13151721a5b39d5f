//! What holds across the editing operations: moves that undo each other,
//! edits that undo each other, toggles that come back, scrolling that keeps
//! the cursor in view, and Esc standing in for Meta.
use vstd::prelude::*;
use crate::editor::{rows_of_width, wrap_top, Editor};
use crate::input::{KeyCode, KeyInput};
use crate::keys::{char_action, command_for, key_action, Action, Command};
use crate::lines::{
    inserted, lemma_insert_lines, lemma_line_facts, lemma_line_of_bound,
    lemma_remove_line_keeps_start, lemma_start_le_len, lemma_start_next, line_start, line_text,
    display_width, line_count, removed,
};

verus! {

/// Moving one char forward and then one char back brings the cursor back
/// to the char index it started at, the text unchanged.
pub proof fn lemma_right_then_left(e0: Editor, e1: Editor, e2: Editor)
    requires
        e0.wf(),
        e0.cursor_index() < e0.text().len(),
        Editor::moved_right(e0, e1),
        Editor::moved_left(e1, e2),
    ensures
        e2.text() == e0.text(),
        e2.cursor_index() == e0.cursor_index(),
{
    lemma_line_facts(e0.text());
}

/// Moving one char back and then one char forward brings the cursor back
/// to the char index it started at, the text unchanged.
pub proof fn lemma_left_then_right(e0: Editor, e1: Editor, e2: Editor)
    requires
        e0.wf(),
        e0.cursor_index() > 0,
        Editor::moved_left(e0, e1),
        Editor::moved_right(e1, e2),
    ensures
        e2.text() == e0.text(),
        e2.cursor_index() == e0.cursor_index(),
{
    lemma_line_facts(e0.text());
}

/// Setting the mark and then toggling again leaves no mark and the state
/// as it was, but for the status line that reports it.
pub proof fn lemma_mark_twice(e0: Editor, e1: Editor, e2: Editor)
    requires
        e0.wf(),
        e0.mark is None,
        Editor::toggled_mark(e0, e1),
        Editor::toggled_mark(e1, e2),
    ensures
        e2 == (Editor {
            status_message: e2.status_message,
            status_timed: true,
            status_fresh: true,
            ..e0
        }),
        e2.status_message@ == "Unmark set"@,
{
}

/// Toggling line numbers, or soft wrap, twice gives back the state it
/// started from, but for the status line that reports it.
pub proof fn lemma_toggle_twice(e0: Editor, e1: Editor, e2: Editor, a: Action, rows: u16)
    requires
        a is ToggleLineNumbers || a is ToggleSoftWrap,
        Editor::after_action(e0, e1, a, rows),
        Editor::after_action(e1, e2, a, rows),
    ensures
        e2 == (Editor {
            status_message: e2.status_message,
            status_timed: true,
            status_fresh: true,
            ..e0
        }),
{
    reveal(Editor::after_action);
}

/// Every key press the editor accepts leaves a well-formed state (the
/// cursor on an existing line and within the text, or at the start of the
/// line just past the last), from which any movement key can be handled as
/// long as the text stays within bounds.
pub proof fn lemma_keys_keep_the_editor_valid(
    e0: Editor,
    e1: Editor,
    key: KeyInput,
    next: KeyInput,
    cols: u16,
    rows: u16,
    cmd: Command,
)
    requires
        Editor::key_handled(e0, e1, key, cols, rows, cmd),
    ensures
        e1.wf(),
        e1.within_limits() && is_move(e1.action_for(next)) ==> e1.keypress_ok(next),
{
    Editor::lemma_start_ok(e1, e1.action_for(next));
    assert(e1.key_start().text() == e1.text());
}

/// The actions of the keys whose step the caller runs: help, exit, save,
/// read, where-is, replace, spell check, go to line, and the next theme.
pub open spec fn is_handed_over(a: Action) -> bool {
    ||| a is ShowHelp
    ||| a is Exit
    ||| a is Save
    ||| a is ReadFile
    ||| a is WhereIs
    ||| a is Replace
    ||| a is SpellCheck
    ||| a is GoToLine
    ||| a is CycleTheme
}

/// A key whose step the caller runs (Ctrl+G, Ctrl+X, Ctrl+O, Ctrl+R,
/// Ctrl+W, Ctrl+\, Ctrl+T, Ctrl+L, Meta+T) changes nothing but the
/// search highlight, the justified and cut flags and (for help, spell check
/// and the theme, whose steps leave the text and cursor alone) the view, and
/// hands the caller the command of that step: where-is, replace, save,
/// read, exit and go-to-line then run through their own functions.
pub proof fn lemma_command_key_hands_over(
    e0: Editor,
    e1: Editor,
    key: KeyInput,
    cols: u16,
    rows: u16,
    cmd: Command,
)
    requires
        !e0.esc_waits(key),
        is_handed_over(e0.action_for(key)),
        Editor::key_handled(e0, e1, key, cols, rows, cmd),
    ensures
        cmd == command_for(e0.action_for(key), e0.update_version is Some),
        ({
            let m = Editor {
                highlight_match: None,
                escape_pending: false,
                is_justified: false,
                previous_action_was_cut: false,
                ..e0
            };
            e1 == if Editor::keeps_view(cmd) && m.view_fits() {
                m.scrolled_state(cols, rows)
            } else {
                m
            }
        }),
{
    reveal(Editor::keypress_result);
    reveal(Editor::after_action);
    let a = e0.action_for(key);
    let m1 = choose|m: Editor| #![trigger Editor::keypress_result(e0, m, key, rows, cmd)]
        Editor::keypress_result(e0, m, key, rows, cmd) && e1 == if Editor::keeps_view(cmd)
            && m.view_fits() {
            m.scrolled_state(cols, rows)
        } else {
            m
        };
    let m = choose|m: Editor| #![trigger Editor::after_action(e0.key_start(), m, a, rows)]
        Editor::after_action(e0.key_start(), m, a, rows) && m1 == (Editor {
            is_justified: a == Action::Justify,
            previous_action_was_cut: a == Action::Cut,
            ..m
        });
    assert(m == e0.key_start());
}

/// The actions of the movement keys (Ctrl+P/Up, Ctrl+N/Down, Ctrl+B/Left,
/// Ctrl+F/Right, Ctrl+A, Ctrl+E, the page keys, and the word moves).
pub open spec fn is_move(a: Action) -> bool {
    ||| a is Up
    ||| a is Down
    ||| a is Left
    ||| a is Right
    ||| a is LineStart
    ||| a is LineEnd
    ||| a is PageUp
    ||| a is PageDown
    ||| a is WordLeft
    ||| a is WordRight
}

/// `post` is `pre` moved as movement action `a` moves, on a screen of
/// `rows` rows.
pub open spec fn moved_by(pre: Editor, post: Editor, a: Action, rows: u16) -> bool {
    match a {
        Action::Up => Editor::moved_up(pre, post),
        Action::Down => Editor::moved_down(pre, post),
        Action::Left => Editor::moved_left(pre, post),
        Action::Right => Editor::moved_right(pre, post),
        Action::LineStart => Editor::moved_to_line_start(pre, post),
        Action::LineEnd => Editor::moved_to_line_end(pre, post),
        Action::PageUp => Editor::paged_up(pre, post, rows),
        Action::PageDown => Editor::paged_down(pre, post, rows),
        Action::WordLeft => Editor::moved_word_left(pre, post),
        Action::WordRight => Editor::moved_word_right(pre, post),
        _ => false,
    }
}

/// A move changes neither the text nor the view's offsets.
proof fn move_keeps_view(pre: Editor, post: Editor, a: Action, rows: u16)
    requires
        pre.wf(),
        moved_by(pre, post, a, rows),
    ensures
        post.buffer == pre.buffer,
        post.row_offset == pre.row_offset,
        post.col_offset == pre.col_offset,
{
}

/// A movement key moves the cursor as its move does, and then the view
/// follows the cursor: the search highlight is gone, the buffer no longer
/// counts as justified nor the last action as a cut, and nothing is left
/// to the caller.
pub proof fn lemma_move_key_then_scroll(
    e0: Editor,
    e1: Editor,
    key: KeyInput,
    cols: u16,
    rows: u16,
    cmd: Command,
)
    requires
        e0.wf(),
        e0.view_fits(),
        !e0.esc_waits(key),
        is_move(e0.action_for(key)),
        Editor::key_handled(e0, e1, key, cols, rows, cmd),
    ensures
        cmd == Command::Done,
        exists|m: Editor|
            #![trigger moved_by(e0.key_start(), m, e0.action_for(key), rows)]
            moved_by(e0.key_start(), m, e0.action_for(key), rows) && e1 == (Editor {
                is_justified: false,
                previous_action_was_cut: false,
                ..m
            }).scrolled_state(cols, rows),
{
    reveal(Editor::keypress_result);
    reveal(Editor::after_action);
    let a = e0.action_for(key);
    let m1 = choose|m: Editor| #![trigger Editor::keypress_result(e0, m, key, rows, cmd)]
        Editor::keypress_result(e0, m, key, rows, cmd) && e1 == if Editor::keeps_view(cmd)
            && m.view_fits() {
            m.scrolled_state(cols, rows)
        } else {
            m
        };
    let m = choose|m: Editor| #![trigger Editor::after_action(e0.key_start(), m, a, rows)]
        Editor::after_action(e0.key_start(), m, a, rows) && m1 == (Editor {
            is_justified: a == Action::Justify,
            previous_action_was_cut: a == Action::Cut,
            ..m
        });
    assert(moved_by(e0.key_start(), m, a, rows));
    assert(e0.key_start().text() == e0.text());
    move_keeps_view(e0.key_start(), m, a, rows);
    assert(m.text() == e0.text());
    assert(m1.view_fits());
}

/// The actions of the editing keys (Ctrl+K, Ctrl+D, Ctrl+J, Tab, the mark
/// keys, Ctrl+U, typed chars, Enter and Backspace).
pub open spec fn is_edit(a: Action) -> bool {
    ||| a is Cut
    ||| a is DeleteChar
    ||| a is Justify
    ||| a is Tab
    ||| a is ToggleMark
    ||| a is PasteOrUnjustify
    ||| a is Type
    ||| a is Enter
    ||| a is Backspace
}

/// `post` is `pre` edited as editing action `a` edits.
pub open spec fn edited_by(pre: Editor, post: Editor, a: Action) -> bool {
    match a {
        Action::Cut => Editor::cut_done(pre, post),
        Action::DeleteChar => Editor::deleted_char(pre, post),
        Action::Justify => Editor::justified_state(pre, post),
        Action::Tab => Editor::inserted_tab(pre, post),
        Action::ToggleMark => Editor::toggled_mark(pre, post),
        Action::PasteOrUnjustify => if pre.is_justified {
            Editor::unjustified_state(pre, post)
        } else {
            Editor::pasted(pre, post)
        },
        Action::Type(c) => Editor::typed_char(pre, post, c),
        Action::Enter => Editor::inserted_newline(pre, post),
        Action::Backspace => Editor::backspaced(pre, post),
        _ => false,
    }
}

/// An editing key edits as its operation does (Ctrl+U undoing a justify
/// right after it, else pasting), and then the view follows the cursor
/// wherever the edited text stays within the bounds that scrolling needs;
/// afterwards the buffer counts as justified only after Ctrl+J, and the
/// last action as a cut only after Ctrl+K.
#[verifier::rlimit(30)]
pub proof fn lemma_edit_key_then_scroll(
    e0: Editor,
    e1: Editor,
    key: KeyInput,
    cols: u16,
    rows: u16,
    cmd: Command,
)
    requires
        !e0.esc_waits(key),
        is_edit(e0.action_for(key)),
        Editor::key_handled(e0, e1, key, cols, rows, cmd),
    ensures
        cmd == Command::Done,
        exists|m: Editor|
            #![trigger edited_by(e0.key_start(), m, e0.action_for(key))]
            edited_by(e0.key_start(), m, e0.action_for(key)) && ({
                let m2 = Editor {
                    is_justified: e0.action_for(key) is Justify,
                    previous_action_was_cut: e0.action_for(key) is Cut,
                    ..m
                };
                e1 == if m2.view_fits() {
                    m2.scrolled_state(cols, rows)
                } else {
                    m2
                }
            }),
{
    reveal(Editor::keypress_result);
    reveal(Editor::after_action);
    let a = e0.action_for(key);
    let m1 = choose|m: Editor| #![trigger Editor::keypress_result(e0, m, key, rows, cmd)]
        Editor::keypress_result(e0, m, key, rows, cmd) && e1 == if Editor::keeps_view(cmd)
            && m.view_fits() {
            m.scrolled_state(cols, rows)
        } else {
            m
        };
    let m = choose|m: Editor| #![trigger Editor::after_action(e0.key_start(), m, a, rows)]
        Editor::after_action(e0.key_start(), m, a, rows) && m1 == (Editor {
            is_justified: a == Action::Justify,
            previous_action_was_cut: a == Action::Cut,
            ..m
        });
    assert(edited_by(e0.key_start(), m, a));
}

/// What typing a char does to the text and the cursor index, when nothing
/// is selected and the char joins no lone CR into a break.
proof fn typed_char_facts(e0: Editor, e1: Editor, c: char)
    requires
        e0.wf(),
        e0.within_limits(),
        !e0.has_selection(),
        !e0.past_last_line(),
        !(c == '\n' && e0.cursor_x == 0 && e0.cursor_index() > 0 && e0.text()[e0.cursor_index()
            - 1] == '\r'),
        Editor::typed_char(e0, e1, c),
    ensures
        e1.text() == inserted(e0.text(), e0.cursor_index() as int, seq![c]),
        e1.cursor_index() == e0.cursor_index() + 1,
        e1.mark is None,
{
    let t = e0.text();
    let i = e0.cursor_index();
    let y = e0.cursor_y as nat;
    lemma_line_facts(t);
    lemma_line_of_bound(t, i, y);
    lemma_insert_lines(t, seq![c], i);
    assert(seq![c][0] == c);
    assert(e0.line_without_selection() == y);
    assert(e0.x_without_selection() == e0.cursor_x);
    assert(e1.cursor_y == y && e1.cursor_x == e0.cursor_x + 1);
    assert(y <= crate::lines::line_of(t, i));
    assert(line_start(e1.text(), y) == line_start(t, y));
}

/// What Backspace does to the text and the cursor index, with no mark set
/// and the cursor past the start.
proof fn backspace_facts(e1: Editor, e2: Editor)
    requires
        e1.mark is None,
        0 < e1.cursor_index() <= e1.text().len(),
        Editor::backspaced(e1, e2),
    ensures
        e2.text() == removed(e1.text(), e1.cursor_index() - 1, e1.cursor_index() as int),
        e2.cursor_index() == e1.cursor_index() - 1,
{
    lemma_line_facts(e2.text());
}

/// Typing a char and then pressing Backspace gives back the text and the
/// cursor position, when nothing was selected.  The exceptions: an LF typed
/// at the start of a line that follows a lone CR joins that CR into one
/// break, and the cursor then ends up past the char typed; and a char typed
/// with the cursor past the last line leaves the cursor past the text.
pub proof fn lemma_type_then_backspace(e0: Editor, e1: Editor, e2: Editor, c: char)
    requires
        e0.wf(),
        e0.within_limits(),
        !e0.has_selection(),
        !e0.past_last_line(),
        !(c == '\n' && e0.cursor_x == 0 && e0.cursor_index() > 0 && e0.text()[e0.cursor_index()
            - 1] == '\r'),
        Editor::typed_char(e0, e1, c),
        Editor::backspaced(e1, e2),
    ensures
        e2.text() == e0.text(),
        e2.cursor_index() == e0.cursor_index(),
{
    let t = e0.text();
    let i = e0.cursor_index();
    typed_char_facts(e0, e1, c);
    backspace_facts(e1, e2);
    assert(removed(e1.text(), i as int, i + 1int) =~= t);
}

/// What cutting the cursor's line does, with no mark set, the previous
/// action not a cut, and no lone CR joined with an LF.
proof fn cut_line_facts(e0: Editor, e1: Editor)
    requires
        e0.wf(),
        e0.mark is None,
        !e0.previous_action_was_cut,
        e0.text().len() > 0,
        ({
            let t = e0.text();
            let a = line_start(t, e0.cursor_y as nat);
            let b = line_start(t, (e0.cursor_y + 1) as nat);
            !(a > 0 && t[a - 1] == '\r' && b < t.len() && t[b as int] == '\n')
        }),
        Editor::cut_done(e0, e1),
    ensures
        ({
            let t = e0.text();
            let a = line_start(t, e0.cursor_y as nat);
            let b = line_start(t, (e0.cursor_y + 1) as nat);
            &&& a <= b <= t.len()
            &&& e1.text() == removed(t, a as int, b as int)
            &&& e1.clipboard@ == t.subrange(a as int, b as int)
            &&& e1.mark is None
            &&& a < b ==> e1.cursor_index() == a
            &&& e1.cursor_index() <= e1.text().len()
        }),
{
    let t = e0.text();
    let y = e0.cursor_y as nat;
    lemma_line_facts(t);
    lemma_line_facts(e1.text());
    if y < line_count(t) {
        lemma_start_next(t, y);
        lemma_start_le_len(t, y + 1);
        lemma_remove_line_keeps_start(t, y);
    } else {
        assert(e1.text() =~= t);
    }
}

/// What pasting does, with no mark set and text in the clipboard.
proof fn paste_facts(e1: Editor, e2: Editor)
    requires
        e1.mark is None,
        e1.cursor_index() <= e1.text().len(),
        Editor::pasted(e1, e2),
    ensures
        e1.clipboard@.len() > 0 ==> e2.text() == inserted(
            e1.text(),
            e1.cursor_index() as int,
            e1.clipboard@,
        ),
        e1.clipboard@.len() == 0 ==> e2.text() == e1.text(),
{
}

/// Cutting the cursor's line (no mark set, the previous action not a cut)
/// and pasting it back gives back the text.  The exception: when the cut
/// line follows a lone CR and the next line begins with an LF, the two
/// join into one break and the lines shift.
pub proof fn lemma_cut_then_paste(e0: Editor, e1: Editor, e2: Editor)
    requires
        e0.wf(),
        e0.mark is None,
        !e0.previous_action_was_cut,
        e0.text().len() > 0,
        ({
            let t = e0.text();
            let a = line_start(t, e0.cursor_y as nat);
            let b = line_start(t, (e0.cursor_y + 1) as nat);
            !(a > 0 && t[a - 1] == '\r' && b < t.len() && t[b as int] == '\n')
        }),
        Editor::cut_done(e0, e1),
        Editor::pasted(e1, e2),
    ensures
        e2.text() == e0.text(),
{
    let t = e0.text();
    let a = line_start(t, e0.cursor_y as nat);
    let b = line_start(t, (e0.cursor_y + 1) as nat);
    cut_line_facts(e0, e1);
    paste_facts(e1, e2);
    let t2 = e1.text();
    if a < b {
        assert(inserted(t2, a as int, t.subrange(a as int, b as int)) =~= t);
    } else {
        assert(t2 =~= t);
    }
}

/// Justifying and then unjustifying gives back the text and the cursor.
pub proof fn lemma_justify_then_unjustify(e0: Editor, e1: Editor, e2: Editor)
    requires
        e0.wf(),
        Editor::justified_state(e0, e1),
        Editor::unjustified_state(e1, e2),
    ensures
        e2.text() == e0.text(),
        e2.cursor_x == e0.cursor_x,
        e2.cursor_y == e0.cursor_y,
        e2.pre_justify_snapshot is None,
{
}

/// Ctrl+J and then Ctrl+U (with no Esc waiting) gives back the text and
/// the cursor: right after a justify, Ctrl+U undoes it instead of pasting.
pub proof fn lemma_justify_key_then_undo(
    e0: Editor,
    e1: Editor,
    e2: Editor,
    rows: u16,
    c1: Command,
    c2: Command,
)
    requires
        e0.wf(),
        !e0.escape_pending,
        Editor::keypress_result(e0, e1, KeyInput { code: KeyCode::Char('j'), ctrl: true, alt: false }, rows, c1),
        Editor::keypress_result(e1, e2, KeyInput { code: KeyCode::Char('u'), ctrl: true, alt: false }, rows, c2),
    ensures
        e2.text() == e0.text(),
        e2.cursor_x == e0.cursor_x,
        e2.cursor_y == e0.cursor_y,
        c1 == Command::Done,
        c2 == Command::Done,
{
    reveal(Editor::keypress_result);
    reveal(Editor::after_action);
    reveal(char_action);
    let k1 = KeyInput { code: KeyCode::Char('j'), ctrl: true, alt: false };
    let k2 = KeyInput { code: KeyCode::Char('u'), ctrl: true, alt: false };
    assert(e0.action_for(k1) == Action::Justify);
    let m1 = choose|m: Editor|
        Editor::after_action(e0.key_start(), m, Action::Justify, rows) && e1 == (Editor {
            is_justified: true,
            previous_action_was_cut: false,
            ..m
        });
    assert(!e1.escape_pending);
    assert(e1.action_for(k2) == Action::PasteOrUnjustify);
    assert(e1.key_start().is_justified);
    let m2 = choose|m: Editor|
        Editor::after_action(e1.key_start(), m, Action::PasteOrUnjustify, rows) && e2 == (Editor {
            is_justified: false,
            previous_action_was_cut: false,
            ..m
        });
    assert(m2.text() == e0.text());
}

/// What cutting a selection does, the previous action not a cut.
proof fn cut_selection_facts(e0: Editor, e1: Editor)
    requires
        e0.wf(),
        e0.mark_in_text(),
        e0.has_selection(),
        !e0.previous_action_was_cut,
        Editor::cut_done(e0, e1),
    ensures
        ({
            let (a, b) = e0.selection_span().unwrap();
            let t = e0.text();
            &&& a <= b <= t.len()
            &&& e1.text() == removed(t, a as int, b as int)
            &&& e1.clipboard@ == t.subrange(a as int, b as int)
            &&& e1.mark is None
            &&& e1.cursor_index() == a
        }),
{
    let t = e0.text();
    let (a, b) = e0.selection_span().unwrap();
    assert(t.len() > 0);
    lemma_line_facts(removed(t, a as int, b as int));
}

/// Cutting a selection (the previous action not a cut) and pasting it
/// back gives back the text.
pub proof fn lemma_cut_selection_then_paste(e0: Editor, e1: Editor, e2: Editor)
    requires
        e0.wf(),
        e0.mark_in_text(),
        e0.has_selection(),
        !e0.previous_action_was_cut,
        Editor::cut_done(e0, e1),
        Editor::pasted(e1, e2),
    ensures
        e2.text() == e0.text(),
{
    let t = e0.text();
    let (a, b) = e0.selection_span().unwrap();
    cut_selection_facts(e0, e1);
    paste_facts(e1, e2);
    assert(inserted(removed(t, a as int, b as int), a as int, t.subrange(a as int, b as int)) =~= t);
}

/// The top line that soft-wrapped scrolling finds lies at or above the
/// line it starts from.
proof fn lemma_wrap_top_le(t: Seq<char>, y: nat, used: nat, visible: nat, avail: nat)
    ensures
        wrap_top(t, y, used, visible, avail) <= y,
    decreases y,
{
    if y > 0 {
        let r = rows_of_width(display_width(line_text(t, (y - 1) as nat), true), avail);
        if used + r < visible {
            lemma_wrap_top_le(t, (y - 1) as nat, used + r, visible, avail);
        }
    }
}

/// Scrolling keeps the cursor on screen: without soft wrap, the cursor's
/// line is among the visible rows and its column among the visible
/// columns (given a row for text at all); with soft wrap, the top line is
/// not below the cursor's line.
pub proof fn lemma_scroll_shows_cursor(e: Editor, cols: u16, rows: u16)
    ensures
        ({
            let (r, c) = e.scrolled(cols, rows);
            let visible: nat = if rows >= 4 { (rows - 4) as nat } else { 0 };
            &&& r <= e.cursor_y
            &&& !e.soft_wrap && visible >= 1 ==> e.cursor_y < r + visible
            &&& !e.soft_wrap ==> c <= e.visual_cursor_x() < c + e.available_width(cols as nat)
        }),
{
    let avail = e.available_width(cols as nat);
    assert(avail >= 1);
    assert(avail / 2 < avail);
    if e.soft_wrap {
        let y = e.cursor_y as nat;
        let visible: nat = if rows >= 4 { (rows - 4) as nat } else { 0 };
        lemma_wrap_top_le(e.text(), y, e.visual_cursor_x() / avail, visible, avail);
    }
}

/// Esc followed by a key does what Meta with that key does: the Esc only
/// waits, and the next key's action is the one bound with Meta held.
pub proof fn lemma_esc_then_key_is_meta(
    e0: Editor,
    e1: Editor,
    k: KeyInput,
    rows: u16,
    c1: Command,
)
    requires
        !e0.escape_pending,
        Editor::keypress_result(e0, e1, KeyInput { code: KeyCode::Esc, ctrl: false, alt: false }, rows, c1),
    ensures
        c1 == Command::Pending,
        e1.escape_pending,
        e1.text() == e0.text(),
        !e1.esc_waits(k),
        e1.action_for(k) == e1.action_for(KeyInput { alt: true, ..k }),
        e1.action_for(k) == key_action(k.code, k.ctrl, true),
{
    reveal(Editor::keypress_result);
}

} // verus!
