//! The editor's state and the edits and cursor movements on it.
use vstd::prelude::*;
use ropey::Rope;
use crate::lines::{
    cursor_ok, display_width, inserted, lemma_display_width_bound, lemma_insert_lines,
    lemma_line_count_bound, lemma_newline_keeps_cursor, lemma_start_le_len, lemma_start_mono, lemma_start_next, lemma_prefix_keeps_cursor, lemma_line_facts, lemma_line_of_bound, lemma_remove_char_lines,
    line_count, line_len_of, line_of, line_start, line_text, removed,
};
use crate::rope::{
    rope_char, rope_char_to_line, rope_clone, rope_insert, rope_insert_char, rope_len_chars, rope_len_lines,
    rope_line_chars, rope_line_to_char, rope_remove, rope_slice_string, rope_text, rope_to_string,
};
use crate::text::{
    char_is_alphanumeric, char_is_whitespace, chars_of, is_whitespace, decimal, decimal_len,
    lemma_decimal_len_bound, is_alphanumeric, parse_trimmed_usize, parse_usize,
    push_decimal, push_str, string_of, trim,
};
use vstd::string::*;
use crate::search::{find_from, is_first_match, matches_at, occurs_at, occurs_from};
use crate::justify::{justified, justify_text, lemma_justified_len, split_words, word_spans};

verus! {

/// Which pair of menu lines (or which prompt's menu) the bottom of the
/// screen shows.
#[derive(PartialEq, Eq, Structural, Clone, Copy, Debug)]
pub enum MenuState {
    Menu1,
    Menu2,
    Menu3,
    YesNoCancel,
    ReplaceAction,
    CancelOnly,
    PromptWithBrowser,
    SpellCheck,
}

/// The editor: a text buffer, a cursor on it, and the state around it.
///
/// The cursor is a line `cursor_y` and a char offset `cursor_x` on that
/// line; `desired_cursor_x` is the column that vertical movement aims for.
/// `status_timed` says that the status message has a display time running
/// (the caller keeps the clock), and `status_fresh` that it was set anew
/// since the caller last looked; `cache_stale` says that highlighting
/// computed for the old text must be thrown away.
pub struct Editor {
    pub buffer: Rope,
    pub cursor_x: usize,
    pub cursor_y: usize,
    pub desired_cursor_x: usize,
    pub mark: Option<usize>,
    pub row_offset: usize,
    pub col_offset: usize,
    pub filename: Option<String>,
    pub should_quit: bool,
    pub status_message: String,
    pub status_timed: bool,
    pub status_fresh: bool,
    pub clipboard: String,
    pub current_suggestions: Vec<String>,
    pub is_modified: bool,
    pub last_search: Option<String>,
    pub menu_state: MenuState,
    pub highlight_match: Option<(usize, usize, usize)>,
    pub cache_stale: bool,
    pub current_theme: String,
    pub is_justified: bool,
    pub pre_justify_snapshot: Option<(Rope, usize, usize)>,
    pub show_line_numbers: bool,
    pub soft_wrap: bool,
    pub previous_action_was_cut: bool,
    pub escape_pending: bool,
    pub update_version: Option<String>,
}

pub open spec fn min_nat(a: nat, b: nat) -> nat {
    if a <= b {
        a
    } else {
        b
    }
}

/// A char that belongs to a word: alphanumeric or an underscore.
pub open spec fn is_word_char(c: char) -> bool {
    char_is_alphanumeric(c) || c == '_'
}

/// From `i` on, the first position whose char is a word char exactly when
/// `word` is false (or the end of the text).
pub open spec fn skip_forward(t: Seq<char>, i: nat, word: bool) -> nat
    decreases t.len() - i,
{
    if i < t.len() && is_word_char(t[i as int]) == word {
        skip_forward(t, i + 1, word)
    } else {
        i
    }
}

/// The start of the next word after position `i` (for `i < t.len()`):
/// past the rest of a word at `i`, then past the chars that are not word
/// chars.
pub open spec fn next_word_start(t: Seq<char>, i: nat) -> nat {
    let j = if is_word_char(t[i as int]) {
        skip_forward(t, i, true)
    } else {
        i
    };
    skip_forward(t, j, false)
}

/// From `i` down, the first position whose char is a word char exactly when
/// `word` is false, stopping at 0.
pub open spec fn skip_backward(t: Seq<char>, i: nat, word: bool) -> nat
    decreases i,
{
    if i > 0 && is_word_char(t[i as int]) == word {
        skip_backward(t, (i - 1) as nat, word)
    } else {
        i
    }
}

/// The start of the word before position `i` (for `0 < i <= t.len()`).
pub open spec fn prev_word_start(t: Seq<char>, i: nat) -> nat {
    let j = skip_backward(t, (i - 1) as nat, false);
    let k = skip_backward(t, j, true);
    if k > 0 || !is_word_char(t[k as int]) {
        k + 1
    } else {
        k
    }
}

/// A search-and-replace in progress: what is searched and put in its
/// place, where the search goes on, how many matches were replaced, whether
/// all further matches are replaced without asking, whether the search has
/// wrapped to the top, the match that waits for an answer, and whether the
/// session is over.
pub struct ReplaceSession {
    pub query: Vec<char>,
    pub replacement: String,
    pub current_idx: usize,
    pub changes_made: usize,
    pub replace_all: bool,
    pub wrapped: bool,
    pub pending: Option<(usize, usize)>,
    pub finished: bool,
}

/// What a step of a search-and-replace needs next.
#[derive(PartialEq, Eq, Structural, Clone, Copy, Debug)]
pub enum ReplaceStep {
    /// A match is highlighted and waits for an answer.
    Ask,
    /// Call `replace_step` again.
    Continue,
    /// The session is over.
    Done,
}

/// A text holding a char that is not whitespace.
pub open spec fn has_non_ws(s: Seq<char>) -> bool {
    exists|i: int| 0 <= i < s.len() && !char_is_whitespace(#[trigger] s[i])
}

/// The first line of the paragraph around line `y`: going up while the
/// line above holds non-whitespace.
pub open spec fn para_start(t: Seq<char>, y: nat) -> nat
    decreases y,
{
    if y > 0 && has_non_ws(line_text(t, (y - 1) as nat)) {
        para_start(t, (y - 1) as nat)
    } else {
        y
    }
}

/// The line after the paragraph from line `y` on: going down while the
/// line holds non-whitespace.
pub open spec fn para_end(t: Seq<char>, y: nat) -> nat
    decreases line_count(t) - y,
{
    if y < line_count(t) && has_non_ws(line_text(t, y)) {
        para_end(t, y + 1)
    } else {
        y
    }
}

/// The chars that justifying at line `y` replaces.
pub open spec fn justify_range(t: Seq<char>, y: nat) -> (nat, nat) {
    (line_start(t, para_start(t, y)), line_start(t, para_end(t, y)))
}

/// Justifying at line `y` changes the text: the buffer is not empty, the
/// cursor is not on a blank line between blank lines, and the paragraph
/// has words.
pub open spec fn justify_applies(t: Seq<char>, y: nat) -> bool {
    let ps = para_start(t, y);
    let pe = para_end(t, y);
    let (a, b) = justify_range(t, y);
    &&& t.len() > 0
    &&& !(ps == pe && !has_non_ws(line_text(t, ps)))
    &&& word_spans(t.subrange(a as int, b as int)).len() > 0
}

/// The screen rows that a line `w` columns wide takes when wrapped at
/// `avail` columns (an empty line takes one).
pub open spec fn rows_of_width(w: nat, avail: nat) -> nat {
    if w == 0 {
        1
    } else {
        ((w - 1) as nat / avail + 1) as nat
    }
}

/// Going up from line `y`, with `used` rows already taken, the first line
/// above which the previous line's wrapped rows would no longer fit in
/// `visible` rows (or line 0).
pub open spec fn wrap_top(t: Seq<char>, y: nat, used: nat, visible: nat, avail: nat) -> nat
    decreases y,
{
    if y == 0 {
        0
    } else {
        let r = rows_of_width(display_width(line_text(t, (y - 1) as nat), true), avail);
        if used + r >= visible {
            y
        } else {
            wrap_top(t, (y - 1) as nat, used + r, visible, avail)
        }
    }
}

/// The top line without soft wrap: the cursor's line when it is above the
/// screen, the line that puts the cursor on the last visible row when it is
/// below, else unchanged.
pub open spec fn unwrapped_row(y: nat, r0: nat, visible: nat) -> nat {
    if y < r0 {
        y
    } else if y >= r0 + visible {
        let keep: nat = if visible >= 1 {
            (visible - 1) as nat
        } else {
            0
        };
        if y >= keep {
            (y - keep) as nat
        } else {
            0
        }
    } else {
        r0
    }
}

/// The horizontal offset without soft wrap: when the cursor's column `vx`
/// is off the visible columns, half a screen before it.
pub open spec fn unwrapped_col(vx: nat, c0: nat, avail: nat) -> nat {
    if vx < c0 || vx >= c0 + avail {
        if vx >= avail / 2 {
            (vx - avail / 2) as nat
        } else {
            0
        }
    } else {
        c0
    }
}

/// The top line with soft wrap: the cursor's line when it is above the
/// screen, else at least `top`.
pub open spec fn wrapped_row(y: nat, r0: nat, top: nat) -> nat {
    if y < r0 {
        y
    } else if r0 < top {
        top
    } else {
        r0
    }
}

impl Editor {
    /// The chars of the buffer.
    pub open spec fn text(&self) -> Seq<char> {
        rope_text(self.buffer)
    }

    /// The char index of the cursor in the buffer.
    pub open spec fn cursor_index(&self) -> nat {
        line_start(self.text(), self.cursor_y as nat) + self.cursor_x as nat
    }

    /// The state is well formed: the cursor is on an existing line with its
    /// index within the text, or at the start of the line just past the
    /// last (see `cursor_ok`), and so is a saved pre-justify cursor.
    pub open spec fn wf(&self) -> bool {
        &&& self.text().len() <= usize::MAX
        &&& cursor_ok(self.text(), self.cursor_x as nat, self.cursor_y as nat)
        &&& match self.pre_justify_snapshot {
            Some(s) => rope_text(s.0).len() <= usize::MAX && cursor_ok(
                rope_text(s.0),
                s.1 as nat,
                s.2 as nat,
            ),
            None => true,
        }
        &&& self.last_search matches Some(l) ==> l@.len() > 0
    }

    /// The text is small enough that widths and counts on it fit a `usize`.
    pub open spec fn within_limits(&self) -> bool {
        self.text().len() <= usize::MAX / 16
    }

    /// The cursor stands just past the last line (see `cursor_ok`).
    pub open spec fn past_last_line(&self) -> bool {
        self.cursor_y == line_count(self.text())
    }

    /// Whether the cursor stands past the last line (see `past_last_line`).
    pub fn cursor_past_last_line(&self) -> (b: bool)
        ensures
            b == self.past_last_line(),
    {
        self.cursor_y == rope_len_lines(&self.buffer)
    }

    /// A set mark lies within the text.
    pub open spec fn mark_in_text(&self) -> bool {
        self.mark matches Some(m) ==> m <= self.text().len()
    }

    /// The cursor stands at char index `i`, with the goal column following.
    pub open spec fn placed_at(&self, i: nat) -> bool {
        &&& self.cursor_y == line_of(self.text(), i)
        &&& self.cursor_x == i - line_start(self.text(), line_of(self.text(), i))
        &&& self.desired_cursor_x == self.cursor_x
    }

    /// The span between the mark and the cursor, smaller end first.
    pub open spec fn selection_span(&self) -> Option<(nat, nat)> {
        match self.mark {
            Some(m) => {
                let i = self.cursor_index();
                if m <= i {
                    Some((m as nat, i))
                } else {
                    Some((i, m as nat))
                }
            },
            None => None,
        }
    }

    /// There is a non-empty selection.
    pub open spec fn has_selection(&self) -> bool {
        self.selection_span() matches Some((a, b)) && a < b
    }

    /// The text once a non-empty selection is deleted.
    pub open spec fn text_without_selection(&self) -> Seq<char> {
        match self.selection_span() {
            Some((a, b)) => if a < b {
                removed(self.text(), a as int, b as int)
            } else {
                self.text()
            },
            None => self.text(),
        }
    }

    /// The cursor index once a non-empty selection is deleted.
    pub open spec fn index_without_selection(&self) -> nat {
        match self.selection_span() {
            Some((a, b)) => if a < b {
                a
            } else {
                self.cursor_index()
            },
            None => self.cursor_index(),
        }
    }

    /// The cursor line once a non-empty selection is deleted.
    pub open spec fn line_without_selection(&self) -> nat {
        if self.has_selection() {
            line_of(self.text_without_selection(), self.index_without_selection())
        } else {
            self.cursor_y as nat
        }
    }

    /// The char index of the cursor.
    pub fn get_cursor_char_idx(&self) -> (i: usize)
        requires
            self.wf(),
        ensures
            i == self.cursor_index(),
    {
        let s = rope_line_to_char(&self.buffer, self.cursor_y);
        s + self.cursor_x
    }

    /// The length of line `y` without its line break (0 past the last line).
    pub fn line_len(&self, y: usize) -> (n: usize)
        ensures
            n == line_len_of(self.text(), y as nat),
    {
        let count = rope_len_lines(&self.buffer);
        if y >= count {
            return 0;
        }
        let line = rope_line_chars(&self.buffer, y);
        let mut len = line.len();
        if len > 0 && line[len - 1] == '\n' {
            len -= 1;
        }
        if len > 0 && line[len - 1] == '\r' {
            len -= 1;
        }
        len
    }

    /// Moves the cursor to char index `i`, the goal column with it.
    fn place_cursor(&mut self, i: usize)
        requires
            i <= old(self).text().len(),
            old(self).text().len() <= usize::MAX,
        ensures
            final(self).placed_at(i as nat),
            cursor_ok(final(self).text(), final(self).cursor_x as nat, final(self).cursor_y as nat),
            *final(self) == (Editor {
                cursor_x: final(self).cursor_x,
                cursor_y: final(self).cursor_y,
                desired_cursor_x: final(self).desired_cursor_x,
                ..*old(self)
            }),
    {
        proof {
            lemma_line_facts(self.text());
        }
        let y = rope_char_to_line(&self.buffer, i);
        let s = rope_line_to_char(&self.buffer, y);
        self.cursor_y = y;
        self.cursor_x = i - s;
        self.desired_cursor_x = self.cursor_x;
    }

    /// Throws away highlighting computed for the old text.
    pub fn clear_cache(&mut self)
        ensures
            *final(self) == (Editor { cache_stale: true, ..*old(self) }),
    {
        self.cache_stale = true;
    }

    /// Records that the buffer changed.
    pub fn mark_modified(&mut self)
        ensures
            *final(self) == (Editor { is_modified: true, cache_stale: true, ..*old(self) }),
    {
        self.is_modified = true;
        self.clear_cache();
    }

    /// Shows `message` in the status line and starts its display time.
    pub fn set_status(&mut self, message: String)
        ensures
            *final(self) == (Editor {
                status_message: message,
                status_timed: true,
                status_fresh: true,
                ..*old(self)
            }),
    {
        self.status_message = message;
        self.status_timed = true;
        self.status_fresh = true;
    }

    /// The state after the status line is emptied.
    pub open spec fn cleared_status(pre: Editor, post: Editor) -> bool {
        &&& post.status_message@ == Seq::<char>::empty()
        &&& post == (Editor {
            status_message: post.status_message,
            status_timed: false,
            ..pre
        })
    }

    /// Empties the status line and stops its display time.
    pub fn clear_status(&mut self)
        ensures
            Self::cleared_status(*old(self), *final(self)),
    {
        self.status_message = String::new();
        self.status_timed = false;
    }

    /// The state after a move one line up.
    pub open spec fn moved_up(pre: Editor, post: Editor) -> bool {
        &&& pre.cursor_y > 0 ==> post == (Editor {
            cursor_y: (pre.cursor_y - 1) as usize,
            cursor_x: min_nat(
                pre.desired_cursor_x as nat,
                line_len_of(pre.text(), (pre.cursor_y - 1) as nat),
            ) as usize,
            ..pre
        })
        &&& pre.cursor_y == 0 ==> post == pre
    }

    /// Moves up one line, to the goal column or the end of that line.
    pub fn move_up(&mut self)
        requires
            old(self).wf(),
        ensures
            final(self).wf(),
            Self::moved_up(*old(self), *final(self)),
    {
        if self.cursor_y > 0 {
            self.cursor_y -= 1;
            let n = self.line_len(self.cursor_y);
            self.cursor_x = if self.desired_cursor_x <= n { self.desired_cursor_x } else { n };
            proof {
                self.lemma_line_len_fits(self.cursor_y as nat);
            }
        }
    }

    /// A column no further than the line's length keeps the cursor in the
    /// text.
    pub proof fn lemma_line_len_fits(&self, y: nat)
        requires
            y < line_count(self.text()),
        ensures
            line_start(self.text(), y) + line_len_of(self.text(), y) <= self.text().len(),
            line_start(self.text(), y) + line_len_of(self.text(), y) <= line_start(
                self.text(),
                y + 1,
            ),            line_start(self.text(), y) <= line_start(self.text(), y + 1) <= self.text().len(),
    {
        lemma_start_next(self.text(), y);
        lemma_start_le_len(self.text(), y + 1);
    }

    /// The state after a move one line down.
    pub open spec fn moved_down(pre: Editor, post: Editor) -> bool {
        &&& pre.cursor_y + 1 < line_count(pre.text()) ==> post == (Editor {
            cursor_y: (pre.cursor_y + 1) as usize,
            cursor_x: min_nat(
                pre.desired_cursor_x as nat,
                line_len_of(pre.text(), (pre.cursor_y + 1) as nat),
            ) as usize,
            ..pre
        })
        &&& pre.cursor_y + 1 >= line_count(pre.text()) ==> post == pre
    }

    /// Moves down one line, to the goal column or the end of that line.
    pub fn move_down(&mut self)
        requires
            old(self).wf(),
        ensures
            final(self).wf(),
            Self::moved_down(*old(self), *final(self)),
    {
        let count = rope_len_lines(&self.buffer);
        let last = if count > 0 { count - 1 } else { 0 };
        if self.cursor_y < last {
            self.cursor_y += 1;
            let n = self.line_len(self.cursor_y);
            self.cursor_x = if self.desired_cursor_x <= n { self.desired_cursor_x } else { n };
            proof {
                self.lemma_line_len_fits(self.cursor_y as nat);
            }
        }
    }

    /// The state after a move one char back.
    pub open spec fn moved_left(pre: Editor, post: Editor) -> bool {
        &&& pre.cursor_index() > 0 ==> post.placed_at(
            (pre.cursor_index() - 1) as nat,
        ) && post == (Editor {
            cursor_x: post.cursor_x,
            cursor_y: post.cursor_y,
            desired_cursor_x: post.desired_cursor_x,
            ..pre
        })
        &&& pre.cursor_index() == 0 ==> post == pre
    }

    /// Moves one char back (across line breaks).
    pub fn move_left(&mut self)
        requires
            old(self).wf(),
        ensures
            final(self).wf(),
            Self::moved_left(*old(self), *final(self)),
    {
        let idx = self.get_cursor_char_idx();
        if idx > 0 {
            self.place_cursor(idx - 1);
        }
    }

    /// The state after a move one char forward.
    pub open spec fn moved_right(pre: Editor, post: Editor) -> bool {
        &&& pre.cursor_index() < pre.text().len() ==> post.placed_at(
            pre.cursor_index() + 1,
        ) && post == (Editor {
            cursor_x: post.cursor_x,
            cursor_y: post.cursor_y,
            desired_cursor_x: post.desired_cursor_x,
            ..pre
        })
        &&& pre.cursor_index() == pre.text().len() ==> post == pre
    }

    /// Moves one char forward (across line breaks).
    pub fn move_right(&mut self)
        requires
            old(self).wf(),
        ensures
            final(self).wf(),
            Self::moved_right(*old(self), *final(self)),
    {
        let idx = self.get_cursor_char_idx();
        let len = rope_len_chars(&self.buffer);
        if idx < len {
            self.place_cursor(idx + 1);
        }
    }

    /// The state after a move to the start of the line.
    pub open spec fn moved_to_line_start(pre: Editor, post: Editor) -> bool {
        &&& post == (Editor { cursor_x: 0, desired_cursor_x: 0, ..pre })
    }

    /// Moves to the start of the line.
    pub fn move_to_start_of_line(&mut self)
        requires
            old(self).wf(),
        ensures
            final(self).wf(),
            Self::moved_to_line_start(*old(self), *final(self)),
    {
        self.cursor_x = 0;
        self.desired_cursor_x = 0;
    }

    /// The state after a move to the end of the line.
    pub open spec fn moved_to_line_end(pre: Editor, post: Editor) -> bool {
        &&& post == (Editor {
            cursor_x: line_len_of(pre.text(), pre.cursor_y as nat) as usize,
            desired_cursor_x: line_len_of(pre.text(), pre.cursor_y as nat) as usize,
            ..pre
        })
    }

    /// Moves to the end of the line (before its line break).
    pub fn move_to_end_of_line(&mut self)
        requires
            old(self).wf(),
        ensures
            final(self).wf(),
            Self::moved_to_line_end(*old(self), *final(self)),
    {
        self.cursor_x = self.line_len(self.cursor_y);
        self.desired_cursor_x = self.cursor_x;
        proof {
            if (self.cursor_y as nat) < line_count(self.text()) {
                self.lemma_line_len_fits(self.cursor_y as nat);
            }
        }
    }

    /// The on-screen width of line `y`, line breaks left out (0 past the
    /// last line).
    pub fn get_visual_line_width(&self, y: usize) -> (w: usize)
        requires
            self.within_limits(),
        ensures
            w == (if y < line_count(self.text()) {
                display_width(line_text(self.text(), y as nat), true)
            } else {
                0
            }),
    {
        let count = rope_len_lines(&self.buffer);
        if y >= count {
            return 0;
        }
        let line = rope_line_chars(&self.buffer, y);
        proof {
            self.lemma_line_len_fits(y as nat);
        }
        let mut w: usize = 0;
        let mut i: usize = 0;
        while i < line.len()
            invariant
                i <= line.len(),
                line.len() <= usize::MAX / 8,
                w == display_width(line@.take(i as int), true),
                w <= 4 * i,
            decreases line.len() - i,
        {
            let ch = line[i];
            proof {
                assert(line@.take(i + 1).drop_last() == line@.take(i as int));
            }
            if ch == '\n' || ch == '\r' {
            } else if ch == '\t' {
                w = w + (4 - w % 4);
            } else {
                w = w + 1;
            }
            i = i + 1;
        }
        proof {
            assert(line@.take(line.len() as int) == line@);
        }
        w
    }

    /// The on-screen column of the cursor: the width of the cursor's line up
    /// to the cursor, line breaks counted as one column each.
    pub open spec fn visual_cursor_x(&self) -> nat {
        if (self.cursor_y as nat) < line_count(self.text()) {
            let line = line_text(self.text(), self.cursor_y as nat);
            display_width(line.take(min_nat(self.cursor_x as nat, line.len()) as int), false)
        } else {
            0
        }
    }

    /// The on-screen column of the cursor.
    pub fn get_visual_cursor_x(&self) -> (w: usize)
        requires
            self.within_limits(),
        ensures
            w == self.visual_cursor_x(),
            w <= 4 * self.text().len(),
    {
        let count = rope_len_lines(&self.buffer);
        if self.cursor_y >= count {
            return 0;
        }
        let line = rope_line_chars(&self.buffer, self.cursor_y);
        proof {
            self.lemma_line_len_fits(self.cursor_y as nat);
        }
        let n = if self.cursor_x <= line.len() { self.cursor_x } else { line.len() };
        let mut w: usize = 0;
        let mut i: usize = 0;
        while i < n
            invariant
                i <= n <= line.len(),
                line.len() <= usize::MAX / 8,
                w == display_width(line@.take(i as int), false),
                w <= 4 * i,
            decreases n - i,
        {
            let ch = line[i];
            proof {
                assert(line@.take(i + 1).drop_last() == line@.take(i as int));
            }
            if ch == '\t' {
                w = w + (4 - w % 4);
            } else {
                w = w + 1;
            }
            i = i + 1;
        }
        w
    }

    /// Deletes the text between the mark and the cursor, if any, leaving
    /// the cursor at its start; the mark is dropped either way.  Returns
    /// whether text was deleted.
    pub fn delete_selection(&mut self) -> (deleted: bool)
        requires
            old(self).wf(),
            old(self).mark_in_text(),
        ensures
            final(self).wf(),
            deleted == old(self).has_selection(),
            final(self).text() == old(self).text_without_selection(),
            final(self).cursor_index() == old(self).index_without_selection(),
            final(self).cursor_y == old(self).line_without_selection(),
            deleted ==> final(self).placed_at(old(self).index_without_selection()) && *final(self) == (Editor {
                buffer: final(self).buffer,
                cursor_x: final(self).cursor_x,
                cursor_y: final(self).cursor_y,
                desired_cursor_x: final(self).desired_cursor_x,
                mark: None,
                is_modified: true,
                cache_stale: true,
                ..*old(self)
            }),
            !deleted ==> *final(self) == (Editor { mark: None, ..*old(self) }),
    {
        match self.mark {
            Some(mark_idx) => {
                let cursor_idx = self.get_cursor_char_idx();
                let start_char = if mark_idx <= cursor_idx { mark_idx } else { cursor_idx };
                let end_char = if mark_idx <= cursor_idx { cursor_idx } else { mark_idx };
                self.mark = None;
                if start_char != end_char {
                    rope_remove(&mut self.buffer, start_char, end_char);
                    self.place_cursor(start_char);
                    self.mark_modified();
                    return true;
                }
                false
            },
            None => false,
        }
    }

    /// The cursor's offset on its line once a non-empty selection is
    /// deleted.
    pub open spec fn x_without_selection(&self) -> nat {
        (self.index_without_selection() - line_start(
            self.text_without_selection(),
            self.line_without_selection(),
        )) as nat
    }

    /// The state after a Delete.
    pub open spec fn deleted_char(pre: Editor, post: Editor) -> bool {
        &&& pre.has_selection() ==> post.text() == pre.text_without_selection()
            && post.placed_at(pre.index_without_selection()) && post == (
        Editor {
            buffer: post.buffer,
            cursor_x: post.cursor_x,
            cursor_y: post.cursor_y,
            desired_cursor_x: post.desired_cursor_x,
            mark: None,
            is_modified: true,
            cache_stale: true,
            ..pre
        })
        &&& !pre.has_selection() && pre.cursor_index() < pre.text().len()
            ==> post.text() == removed(
            pre.text(),
            pre.cursor_index() as int,
            pre.cursor_index() + 1int,
        ) && post == (Editor {
            buffer: post.buffer,
            mark: None,
            is_modified: true,
            cache_stale: true,
            ..pre
        })
        &&& !pre.has_selection() && pre.cursor_index() == pre.text().len()
            ==> post == (Editor { mark: None, ..pre })
    }

    /// Deletes the selection if there is one, else the char under the
    /// cursor (if any); the cursor stays.
    pub fn delete_char(&mut self)
        requires
            old(self).wf(),
            old(self).mark_in_text(),
        ensures
            final(self).wf(),
            Self::deleted_char(*old(self), *final(self)),
    {
        if self.delete_selection() {
            return;
        }
        let idx = self.get_cursor_char_idx();
        let len = rope_len_chars(&self.buffer);
        if idx < len {
            let ghost t = self.text();
            rope_remove(&mut self.buffer, idx, idx + 1);
            proof {
                lemma_remove_char_lines(t, idx as nat);
                lemma_line_of_bound(t, idx as nat, self.cursor_y as nat);
            }
            self.mark_modified();
        }
    }

    /// Inserts `s` at the cursor, the cursor and goal column moving `k`
    /// chars right (once a selection is deleted).
    fn insert_at_cursor(&mut self, s: &str, k: usize)
        requires
            old(self).wf(),
            old(self).mark_in_text(),
            old(self).within_limits(),
            s@.len() == k,
            1 <= k <= 4,
            old(self).insert_stays_in_text(),
            s@[0] != '\n' || !(old(self).index_without_selection() > 0
                && old(self).text_without_selection()[old(self).index_without_selection() - 1]
                == '\r' && old(self).index_without_selection()
                == old(self).text_without_selection().len()
                && old(self).x_without_selection() == 0),
        ensures
            final(self).wf(),
            final(self).text() == inserted(
                old(self).text_without_selection(),
                old(self).index_without_selection() as int,
                s@,
            ),
            *final(self) == (Editor {
                buffer: final(self).buffer,
                cursor_y: old(self).line_without_selection() as usize,
                cursor_x: (old(self).x_without_selection() + k) as usize,
                desired_cursor_x: (old(self).x_without_selection() + k) as usize,
                mark: None,
                is_modified: true,
                cache_stale: true,
                ..*old(self)
            }),
    {
        self.delete_selection();
        let idx = self.get_cursor_char_idx();
        let ghost t = self.text();
        proof {
            lemma_line_facts(t);
        }
        rope_insert(&mut self.buffer, idx, s);
        proof {
            lemma_insert_lines(t, s@, idx as nat);
            lemma_line_of_bound(t, idx as nat, self.cursor_y as nat);
        }
        self.cursor_x = self.cursor_x + k;
        self.desired_cursor_x = self.cursor_x;
        self.mark_modified();
    }

    /// Inserting at the cursor and moving right along its line keeps the
    /// cursor within the text: not so where nothing is selected and the
    /// cursor stands past the last line, whose column cannot grow.
    pub open spec fn insert_stays_in_text(&self) -> bool {
        !(!self.has_selection() && self.past_last_line())
    }

    /// Inserting `c` at the cursor and moving one char right keeps the
    /// cursor within the text: see `insert_stays_in_text`, and besides, an
    /// LF typed at the very end of the text right after a lone CR that
    /// begins the cursor's line forms one break with the CR, so that a move
    /// one char right would leave the cursor past the end.
    pub open spec fn char_insert_stays_in_text(&self, c: char) -> bool {
        &&& self.insert_stays_in_text()
        &&& !(c == '\n' && self.index_without_selection() > 0
            && self.text_without_selection()[self.index_without_selection() - 1] == '\r'
            && self.index_without_selection() == self.text_without_selection().len()
            && self.x_without_selection() == 0)
    }

    /// The state after the char `c` is typed: it goes in at the cursor
    /// (once the selection is deleted) and the cursor moves past it.
    pub open spec fn typed_char(pre: Editor, post: Editor, c: char) -> bool {
        &&& post.text() == inserted(
            pre.text_without_selection(),
            pre.index_without_selection() as int,
            seq![c],
        )
        &&& post == (Editor {
            buffer: post.buffer,
            cursor_y: pre.line_without_selection() as usize,
            cursor_x: (pre.x_without_selection() + 1) as usize,
            desired_cursor_x: (pre.x_without_selection() + 1) as usize,
            mark: None,
            is_modified: true,
            cache_stale: true,
            ..pre
        })
    }

    /// Types the char `c`: deletes the selection, inserts `c` at the cursor
    /// and moves past it.
    pub fn insert_typed_char(&mut self, c: char)
        requires
            old(self).wf(),
            old(self).mark_in_text(),
            old(self).within_limits(),
            old(self).char_insert_stays_in_text(c),
        ensures
            final(self).wf(),
            Self::typed_char(*old(self), *final(self), c),
    {
        let mut v: Vec<char> = Vec::new();
        v.push(c);
        let s = string_of(&v);
        self.insert_at_cursor(s.as_str(), 1);
    }

    /// The state after a tab is inserted.
    pub open spec fn inserted_tab(pre: Editor, post: Editor) -> bool {
        &&& post.text() == inserted(
            pre.text_without_selection(),
            pre.index_without_selection() as int,
            seq![' ', ' ', ' ', ' '],
        )
        &&& post == (Editor {
            buffer: post.buffer,
            cursor_y: pre.line_without_selection() as usize,
            cursor_x: (pre.x_without_selection() + 4) as usize,
            desired_cursor_x: (pre.x_without_selection() + 4) as usize,
            mark: None,
            is_modified: true,
            cache_stale: true,
            ..pre
        })
    }

    /// Inserts four spaces at the cursor (after deleting the selection).
    pub fn insert_tab(&mut self)
        requires
            old(self).wf(),
            old(self).mark_in_text(),
            old(self).within_limits(),
            old(self).insert_stays_in_text(),
        ensures
            final(self).wf(),
            Self::inserted_tab(*old(self), *final(self)),
    {
        let s = "    ";
        proof {
            reveal_strlit("    ");
            assert(s@ =~= seq![' ', ' ', ' ', ' ']);
        }
        self.insert_at_cursor(s, 4);
    }

    /// Pressing Enter keeps the cursor within the text: not so where
    /// nothing is selected, the cursor stands past the last line and the
    /// text ends in a lone CR, which the new LF would join, so that the next
    /// line would be two past the last.
    pub open spec fn enter_stays_in_text(&self) -> bool {
        !(!self.has_selection() && self.past_last_line() && self.text().len() > 0
            && self.text().last() == '\r')
    }

    /// The state after Enter: an LF goes in at the cursor (once the
    /// selection is deleted) and the cursor moves to the start of the next
    /// line; where the LF joins a lone CR on the last line into one break,
    /// that is the start of the line just past the last.
    pub open spec fn inserted_newline(pre: Editor, post: Editor) -> bool {
        &&& post.text() == inserted(
            pre.text_without_selection(),
            pre.index_without_selection() as int,
            seq!['\n'],
        )
        &&& post == (Editor {
            buffer: post.buffer,
            cursor_y: (pre.line_without_selection() + 1) as usize,
            cursor_x: 0,
            desired_cursor_x: 0,
            mark: None,
            is_modified: true,
            cache_stale: true,
            ..pre
        })
    }

    /// Enter: deletes the selection, inserts an LF at the cursor and moves
    /// to the start of the next line.
    pub fn insert_newline(&mut self)
        requires
            old(self).wf(),
            old(self).mark_in_text(),
            old(self).within_limits(),
            old(self).enter_stays_in_text(),
        ensures
            final(self).wf(),
            Self::inserted_newline(*old(self), *final(self)),
    {
        let deleted = self.delete_selection();
        let idx = self.get_cursor_char_idx();
        let ghost t = self.text();
        proof {
            lemma_line_facts(t);
            if deleted {
                assert(self.cursor_y == line_of(t, idx as nat));
            }
            lemma_newline_keeps_cursor(t, idx as nat, self.cursor_y as nat);
            lemma_line_count_bound(t);
        }
        rope_insert_char(&mut self.buffer, idx, '\n');
        proof {
            lemma_start_le_len(self.text(), (self.cursor_y + 1) as nat);
        }
        self.cursor_y = self.cursor_y + 1;
        self.cursor_x = 0;
        self.desired_cursor_x = 0;
        self.mark_modified();
    }

    /// The state after a Backspace.
    pub open spec fn backspaced(pre: Editor, post: Editor) -> bool {
        &&& pre.has_selection() ==> post.text() == pre.text_without_selection()
            && post.placed_at(pre.index_without_selection()) && post == (
        Editor {
            buffer: post.buffer,
            cursor_x: post.cursor_x,
            cursor_y: post.cursor_y,
            desired_cursor_x: post.desired_cursor_x,
            mark: None,
            is_modified: true,
            cache_stale: true,
            ..pre
        })
        &&& !pre.has_selection() && pre.cursor_index() > 0 ==> post.text()
            == removed(
            pre.text(),
            pre.cursor_index() - 1,
            pre.cursor_index() as int,
        ) && post.placed_at((pre.cursor_index() - 1) as nat) && post == (
        Editor {
            buffer: post.buffer,
            cursor_x: post.cursor_x,
            cursor_y: post.cursor_y,
            desired_cursor_x: post.desired_cursor_x,
            mark: None,
            is_modified: true,
            cache_stale: true,
            ..pre
        })
        &&& !pre.has_selection() && pre.cursor_index() == 0 ==> post == (
        Editor { mark: None, ..pre })
    }

    /// Backspace: deletes the selection if there is one, else the char
    /// before the cursor (if any), the cursor moving onto its place.
    pub fn backspace(&mut self)
        requires
            old(self).wf(),
            old(self).mark_in_text(),
        ensures
            final(self).wf(),
            Self::backspaced(*old(self), *final(self)),
    {
        if !self.delete_selection() {
            let idx = self.get_cursor_char_idx();
            if idx > 0 {
                rope_remove(&mut self.buffer, idx - 1, idx);
                self.place_cursor(idx - 1);
                self.mark_modified();
            }
        }
    }

    /// The state after a page up on a screen of `rows` rows.
    pub open spec fn paged_up(pre: Editor, post: Editor, rows: u16) -> bool {
        &&& ({
            let visible: int = if rows >= 4 { rows - 4 } else { 0 };
            let y: int = if pre.cursor_y >= visible { pre.cursor_y - visible } else { 0 };
            post == (Editor {
                cursor_y: y as usize,
                cursor_x: min_nat(
                    pre.desired_cursor_x as nat,
                    line_len_of(pre.text(), y as nat),
                ) as usize,
                ..pre
            })
        })
    }

    /// Moves up a screenful (`rows` less the four lines of title, status
    /// and menus), to the goal column or the end of that line.
    #[verifier::spinoff_prover]
    #[verifier::rlimit(30)]
    pub fn page_up(&mut self, rows: u16)
        requires
            old(self).wf(),
        ensures
            final(self).wf(),
            Self::paged_up(*old(self), *final(self), rows),
    {
        let visible: usize = if rows >= 4 { (rows - 4) as usize } else { 0 };
        let y = if self.cursor_y >= visible { self.cursor_y - visible } else { 0 };
        let n = self.line_len(y);
        let ghost t = self.text();
        proof {
            if (y as nat) < line_count(t) {
                self.lemma_line_len_fits(y as nat);
            } else {
                assert(n == 0);
            }
        }
        self.cursor_y = y;
        self.cursor_x = if self.desired_cursor_x <= n { self.desired_cursor_x } else { n };
        proof {
            assert(self.text() == t);
            assert(cursor_ok(t, self.cursor_x as nat, self.cursor_y as nat));
        }
    }

    /// The state after a page down on a screen of `rows` rows.
    pub open spec fn paged_down(pre: Editor, post: Editor, rows: u16) -> bool {
        &&& ({
            let visible: int = if rows >= 4 { rows - 4 } else { 0 };
            let last: int = line_count(pre.text()) - 1;
            let y: int = if pre.cursor_y + visible <= last {
                pre.cursor_y + visible
            } else {
                last
            };
            post == (Editor {
                cursor_y: y as usize,
                cursor_x: min_nat(
                    pre.desired_cursor_x as nat,
                    line_len_of(pre.text(), y as nat),
                ) as usize,
                ..pre
            })
        })
    }

    /// Moves down a screenful (at most to the last line), to the goal
    /// column or the end of that line.
    #[verifier::spinoff_prover]
    #[verifier::rlimit(30)]
    pub fn page_down(&mut self, rows: u16)
        requires
            old(self).wf(),
            old(self).within_limits(),
        ensures
            final(self).wf(),
            Self::paged_down(*old(self), *final(self), rows),
    {
        let visible: usize = if rows >= 4 { (rows - 4) as usize } else { 0 };
        let count = rope_len_lines(&self.buffer);
        proof {
            lemma_line_count_bound(self.text());
            lemma_line_facts(self.text());
        }
        let last = if count > 0 { count - 1 } else { 0 };
        let target = self.cursor_y + visible;
        let y = if target <= last { target } else { last };
        let n = self.line_len(y);
        proof {
            self.lemma_line_len_fits(y as nat);
        }
        self.cursor_y = y;
        self.cursor_x = if self.desired_cursor_x <= n { self.desired_cursor_x } else { n };
    }

    /// The state after the mark is set at the cursor, or dropped.
    pub open spec fn toggled_mark(pre: Editor, post: Editor) -> bool {
        &&& pre.mark is Some ==> post.status_message@ == "Unmark set"@ && post
            == (Editor {
            mark: None,
            status_message: post.status_message,
            status_timed: true,
            status_fresh: true,
            ..pre
        })
        &&& pre.mark is None ==> post.status_message@ == "Mark Set"@ && post
            == (Editor {
            mark: Some(pre.cursor_index() as usize),
            status_message: post.status_message,
            status_timed: true,
            status_fresh: true,
            ..pre
        })
    }

    /// Sets the mark at the cursor, or drops it if it is set, and says so.
    pub fn toggle_mark(&mut self)
        requires
            old(self).wf(),
        ensures
            final(self).wf(),
            Self::toggled_mark(*old(self), *final(self)),
    {
        if self.mark.is_some() {
            self.mark = None;
            self.set_status(String::from_str("Unmark set"));
        } else {
            self.mark = Some(self.get_cursor_char_idx());
            self.set_status(String::from_str("Mark Set"));
        }
    }

    /// The status text that reports the cursor position.
    pub open spec fn position_report(&self) -> Seq<char> {
        "line "@ + decimal((self.cursor_y + 1) as nat) + "/"@ + decimal(line_count(self.text()))
            + ", col "@ + decimal((self.cursor_x + 1) as nat) + ", char "@ + decimal(
            self.text().len(),
        )
    }

    /// The state after the cursor position is reported.
    pub open spec fn reported_position(pre: Editor, post: Editor) -> bool {
        &&& post.status_message@ == pre.position_report()
        &&& post == (Editor {
            status_message: post.status_message,
            status_timed: true,
            status_fresh: true,
            ..pre
        })
    }

    /// Reports the cursor's line and column and the buffer's size.
    pub fn cur_pos(&mut self)
        requires
            old(self).wf(),
            old(self).within_limits(),
        ensures
            Self::reported_position(*old(self), *final(self)),
    {
        let total_lines = rope_len_lines(&self.buffer);
        let total_chars = rope_len_chars(&self.buffer);
        proof {
            lemma_line_count_bound(self.text());
        }
        let mut v: Vec<char> = Vec::new();
        push_str(&mut v, "line ");
        push_decimal(&mut v, self.cursor_y + 1);
        push_str(&mut v, "/");
        push_decimal(&mut v, total_lines);
        push_str(&mut v, ", col ");
        push_decimal(&mut v, self.cursor_x + 1);
        push_str(&mut v, ", char ");
        push_decimal(&mut v, total_chars);
        let s = string_of(&v);
        self.set_status(s);
    }

    /// The end of the line the cursor is on, line break included (the end
    /// of the text on the last line).
    pub open spec fn cursor_line_end(&self) -> nat {
        if self.cursor_y + 1 < line_count(self.text()) {
            line_start(self.text(), (self.cursor_y + 1) as nat)
        } else {
            self.text().len()
        }
    }

    /// The clipboard after a cut of `piece`: appended to when the previous
    /// action was a cut too, replaced otherwise.
    pub open spec fn clipboard_after_cut(&self, piece: Seq<char>) -> Seq<char> {
        if self.previous_action_was_cut {
            self.clipboard@ + piece
        } else {
            piece
        }
    }

    /// The state after a cut.
    pub open spec fn cut_done(pre: Editor, post: Editor) -> bool {
        &&& pre.text().len() == 0 ==> post == pre
        &&& pre.text().len() > 0 && pre.mark is Some && !pre.has_selection()
            ==> post == pre
        &&& pre.text().len() > 0 && pre.has_selection() ==> ({
            let (a, b) = pre.selection_span().unwrap();
            &&& post.clipboard@ == pre.clipboard_after_cut(
                pre.text().subrange(a as int, b as int),
            )
            &&& post.text() == removed(pre.text(), a as int, b as int)
            &&& post.placed_at(a)
            &&& post.status_message@ == "Cut selection"@
            &&& post == (Editor {
                buffer: post.buffer,
                clipboard: post.clipboard,
                cursor_x: post.cursor_x,
                cursor_y: post.cursor_y,
                desired_cursor_x: post.desired_cursor_x,
                mark: None,
                status_message: post.status_message,
                status_timed: true,
                status_fresh: true,
                is_modified: true,
                cache_stale: true,
                ..pre
            })
        })
        &&& pre.text().len() > 0 && pre.mark is None ==> ({
            let a = line_start(pre.text(), pre.cursor_y as nat);
            let b = pre.cursor_line_end();
            let t2 = removed(pre.text(), a as int, b as int);
            &&& post.clipboard@ == pre.clipboard_after_cut(
                pre.text().subrange(a as int, b as int),
            )
            &&& post.text() == t2
            &&& post.status_message@ == "Cut line"@
            &&& post == (Editor {
                buffer: post.buffer,
                clipboard: post.clipboard,
                cursor_x: 0,
                desired_cursor_x: 0,
                cursor_y: min_nat(
                    pre.cursor_y as nat,
                    (line_count(t2) - 1) as nat,
                ) as usize,
                status_message: post.status_message,
                status_timed: true,
                status_fresh: true,
                is_modified: true,
                cache_stale: true,
                ..pre
            })
        })
    }

    /// Cuts the selection, or without a mark the cursor's whole line, into
    /// the clipboard.  Nothing happens in an empty buffer, or when the mark
    /// is set at the cursor.
    #[verifier::spinoff_prover]
    #[verifier::rlimit(40)]
    pub fn cut_line(&mut self)
        requires
            old(self).wf(),
            old(self).text().len() > 0 ==> old(self).mark_in_text(),
        ensures
            final(self).wf(),
            Self::cut_done(*old(self), *final(self)),
    {
        let len = rope_len_chars(&self.buffer);
        if len == 0 {
            return;
        }
        match self.mark {
            Some(mark_idx) => {
                let cursor_idx = self.get_cursor_char_idx();
                let start_char = if mark_idx <= cursor_idx { mark_idx } else { cursor_idx };
                let end_char = if mark_idx <= cursor_idx { cursor_idx } else { mark_idx };
                if start_char != end_char {
                    let cut_text = rope_slice_string(&self.buffer, start_char, end_char);
                    if self.previous_action_was_cut {
                        self.clipboard.append(cut_text.as_str());
                    } else {
                        self.clipboard = cut_text;
                    }
                    rope_remove(&mut self.buffer, start_char, end_char);
                    self.place_cursor(start_char);
                    self.mark = None;
                    self.set_status(String::from_str("Cut selection"));
                    self.mark_modified();
                }
            },
            None => {
                let start_char = rope_line_to_char(&self.buffer, self.cursor_y);
                let count = rope_len_lines(&self.buffer);
                proof {
                    lemma_line_facts(self.text());
                    lemma_line_count_bound(self.text());
                    if (self.cursor_y as nat) < line_count(self.text()) {
                        lemma_start_next(self.text(), self.cursor_y as nat);
                        lemma_start_le_len(self.text(), (self.cursor_y + 1) as nat);
                    }
                }
                let end_char = if self.cursor_y < count - 1 {
                    rope_line_to_char(&self.buffer, self.cursor_y + 1)
                } else {
                    len
                };
                let cut_text = rope_slice_string(&self.buffer, start_char, end_char);
                if self.previous_action_was_cut {
                    self.clipboard.append(cut_text.as_str());
                } else {
                    self.clipboard = cut_text;
                }
                rope_remove(&mut self.buffer, start_char, end_char);
                self.cursor_x = 0;
                self.desired_cursor_x = 0;
                let count2 = rope_len_lines(&self.buffer);
                let max_y = if count2 > 0 { count2 - 1 } else { 0 };
                proof {
                    lemma_line_facts(self.text());
                    lemma_start_le_len(self.text(), max_y as nat);
                }
                if self.cursor_y > max_y {
                    self.cursor_y = max_y;
                }
                self.set_status(String::from_str("Cut line"));
                self.mark_modified();
            },
        }
    }

    /// The state after a paste.
    pub open spec fn pasted(pre: Editor, post: Editor) -> bool {
        &&& pre.clipboard@.len() == 0 ==> post == pre
        &&& pre.clipboard@.len() > 0 ==> ({
            &&& post.text() == inserted(
                pre.text_without_selection(),
                pre.index_without_selection() as int,
                pre.clipboard@,
            )
            &&& post.placed_at(
                pre.index_without_selection() + pre.clipboard@.len(),
            )
            &&& post.status_message@ == "Pasted text"@
            &&& post == (Editor {
                buffer: post.buffer,
                cursor_x: post.cursor_x,
                cursor_y: post.cursor_y,
                desired_cursor_x: post.desired_cursor_x,
                mark: None,
                status_message: post.status_message,
                status_timed: true,
                status_fresh: true,
                is_modified: true,
                cache_stale: true,
                ..pre
            })
        })
    }

    /// Pastes the clipboard at the cursor (after deleting the selection)
    /// and moves past it.  Nothing happens when the clipboard is empty.
    pub fn paste_line(&mut self)
        requires
            old(self).wf(),
            old(self).clipboard@.len() > 0 ==> old(self).mark_in_text(),
            old(self).text().len() + old(self).clipboard@.len() <= usize::MAX,
        ensures
            final(self).wf(),
            Self::pasted(*old(self), *final(self)),
    {
        let clip = chars_of(self.clipboard.as_str());
        if clip.len() == 0 {
            return;
        }
        self.delete_selection();
        let current_char = self.get_cursor_char_idx();
        rope_insert(&mut self.buffer, current_char, self.clipboard.as_str());
        let new_idx = current_char + clip.len();
        self.place_cursor(new_idx);
        self.set_status(String::from_str("Pasted text"));
        self.mark_modified();
    }

    /// Whether the char at index `i` is a word char.
    fn is_word_at(&self, i: usize) -> (b: bool)
        requires
            i < self.text().len(),
        ensures
            b == is_word_char(self.text()[i as int]),
    {
        let c = rope_char(&self.buffer, i);
        is_alphanumeric(c) || c == '_'
    }

    /// The state after a move to the next word.
    pub open spec fn moved_word_right(pre: Editor, post: Editor) -> bool {
        &&& pre.cursor_index() >= pre.text().len() ==> post == pre
        &&& pre.cursor_index() < pre.text().len() ==> post.placed_at(
            next_word_start(pre.text(), pre.cursor_index()),
        ) && post == (Editor {
            cursor_x: post.cursor_x,
            cursor_y: post.cursor_y,
            desired_cursor_x: post.desired_cursor_x,
            ..pre
        })
    }

    /// Moves to the start of the next word: past the rest of the word under
    /// the cursor, then past everything that is not a word char.
    pub fn move_word_right(&mut self)
        requires
            old(self).wf(),
        ensures
            final(self).wf(),
            Self::moved_word_right(*old(self), *final(self)),
    {
        let mut idx = self.get_cursor_char_idx();
        let len = rope_len_chars(&self.buffer);
        if idx >= len {
            return;
        }
        let ghost t = self.text();
        let ghost i0 = idx as nat;
        let c = rope_char(&self.buffer, idx);
        let start_is_word = is_alphanumeric(c) || c == '_';
        if start_is_word {
            while idx < len && self.is_word_at(idx)
                invariant
                    i0 <= idx <= len == t.len(),
                    t == self.text(),
                    skip_forward(t, idx as nat, true) == skip_forward(t, i0, true),
                decreases len - idx,
            {
                idx += 1;
            }
        }
        let ghost j = idx as nat;
        assert(j == (if is_word_char(t[i0 as int]) { skip_forward(t, i0, true) } else { i0 }));
        while idx < len && !self.is_word_at(idx)
            invariant
                j <= idx <= len == t.len(),
                t == self.text(),
                skip_forward(t, idx as nat, false) == skip_forward(t, j, false),
            decreases len - idx,
        {
            idx += 1;
        }
        self.place_cursor(idx);
    }

    /// The start of the word before char index `i0`.
    fn prev_word_start_index(&self, i0: usize) -> (r: usize)
        requires
            0 < i0 <= self.text().len(),
        ensures
            r == prev_word_start(self.text(), i0 as nat),
            r <= i0,
    {
        let ghost t = self.text();
        let mut idx = i0 - 1;
        while idx > 0 && !self.is_word_at(idx)
            invariant
                idx < i0 <= t.len(),
                t == self.text(),
                skip_backward(t, idx as nat, false) == skip_backward(t, (i0 - 1) as nat, false),
            decreases idx,
        {
            idx -= 1;
        }
        let ghost j = idx as nat;
        while idx > 0 && self.is_word_at(idx)
            invariant
                idx <= j < i0 <= t.len(),
                t == self.text(),
                skip_backward(t, idx as nat, true) == skip_backward(t, j, true),
            decreases idx,
        {
            idx -= 1;
        }
        if idx > 0 || !self.is_word_at(idx) {
            idx += 1;
        }
        idx
    }

    /// The state after a move to the previous word.
    pub open spec fn moved_word_left(pre: Editor, post: Editor) -> bool {
        &&& pre.cursor_index() == 0 ==> post == pre
        &&& pre.cursor_index() > 0 ==> post.placed_at(
            prev_word_start(pre.text(), pre.cursor_index()),
        ) && post == (Editor {
            cursor_x: post.cursor_x,
            cursor_y: post.cursor_y,
            desired_cursor_x: post.desired_cursor_x,
            ..pre
        })
    }

    /// Moves to the start of the previous word: back over everything that
    /// is not a word char, then over the word.
    pub fn move_word_left(&mut self)
        requires
            old(self).wf(),
        ensures
            final(self).wf(),
            Self::moved_word_left(*old(self), *final(self)),
    {
        let idx = self.get_cursor_char_idx();
        if idx == 0 {
            return;
        }
        let target = self.prev_word_start_index(idx);
        self.place_cursor(target);
    }

    /// Goes to the line number typed at the prompt (`None` when the prompt
    /// was cancelled): a valid number, counted from 1 and clamped to the
    /// last line, moves the cursor to that line's start and clears the
    /// status; anything else reports "Invalid line number".
    pub fn go_to_line(&mut self, input: Option<String>)
        requires
            old(self).wf(),
        ensures
            final(self).wf(),
            input is None ==> *final(self) == *old(self),
            input matches Some(s) ==> match parse_usize(trim(s@)) {
                Some(n) => {
                    let y: nat = min_nat(
                        if n >= 1 { (n - 1) as nat } else { 0 },
                        (line_count(old(self).text()) - 1) as nat,
                    );
                    &&& final(self).status_message@ == Seq::<char>::empty()
                    &&& *final(self) == (Editor {
                        cursor_y: y as usize,
                        cursor_x: 0,
                        desired_cursor_x: 0,
                        status_message: final(self).status_message,
                        status_timed: false,
                        ..*old(self)
                    })
                },
                None => {
                    &&& final(self).status_message@ == "Invalid line number"@
                    &&& *final(self) == (Editor {
                        status_message: final(self).status_message,
                        status_timed: true,
                        status_fresh: true,
                        ..*old(self)
                    })
                },
            },
    {
        if let Some(s) = input {
            match parse_trimmed_usize(s.as_str()) {
                Some(line) => {
                    let count = rope_len_lines(&self.buffer);
                    let a = if line >= 1 { line - 1 } else { 0 };
                    let b = if count >= 1 { count - 1 } else { 0 };
                    proof {
                        lemma_line_facts(self.text());
                        lemma_start_le_len(self.text(), (if a <= b { a } else { b }) as nat);
                    }
                    self.cursor_y = if a <= b { a } else { b };
                    self.cursor_x = 0;
                    self.desired_cursor_x = 0;
                    self.clear_status();
                },
                None => {
                    self.set_status(String::from_str("Invalid line number"));
                },
            }
        }
    }

    /// Whether line `y` holds a char that is not whitespace.
    fn line_has_non_ws(&self, y: usize) -> (b: bool)
        requires
            y < line_count(self.text()),
        ensures
            b == has_non_ws(line_text(self.text(), y as nat)),
    {
        let line = rope_line_chars(&self.buffer, y);
        let mut i: usize = 0;
        while i < line.len()
            invariant
                i <= line.len(),
                line@ == line_text(self.text(), y as nat),
                forall|j: int| 0 <= j < i ==> char_is_whitespace(#[trigger] line@[j]),
            decreases line.len() - i,
        {
            if !is_whitespace(line[i]) {
                assert(!char_is_whitespace(line_text(self.text(), y as nat)[i as int]));
                return true;
            }
            i += 1;
        }
        false
    }

    /// The first line of the cursor's paragraph and the line after it.
    fn paragraph_lines(&self) -> (r: (usize, usize))
        requires
            self.wf(),
            !self.past_last_line(),
        ensures
            r.0 == para_start(self.text(), self.cursor_y as nat),
            r.1 == para_end(self.text(), self.cursor_y as nat),
            r.0 <= self.cursor_y <= r.1 <= line_count(self.text()),
    {
        let ghost t = self.text();
        let ghost y0 = self.cursor_y as nat;
        let count = rope_len_lines(&self.buffer);
        let mut start_line = self.cursor_y;
        while start_line > 0 && self.line_has_non_ws(start_line - 1)
            invariant
                start_line <= y0 < count == line_count(t),
                t == self.text(),
                para_start(t, start_line as nat) == para_start(t, y0),
            decreases start_line,
        {
            start_line -= 1;
        }
        let mut end_line = self.cursor_y;
        while end_line < count && self.line_has_non_ws(end_line)
            invariant
                y0 <= end_line <= count == line_count(t),
                t == self.text(),
                para_end(t, end_line as nat) == para_end(t, y0),
            decreases count - end_line,
        {
            end_line += 1;
        }
        (start_line, end_line)
    }

    /// The state after a justify.
    pub open spec fn justified_state(pre: Editor, post: Editor) -> bool {
        &&& post.pre_justify_snapshot matches Some(s) && rope_text(s.0) == pre.text()
            && s.1 == pre.cursor_x && s.2 == pre.cursor_y
        &&& !justify_applies(pre.text(), pre.cursor_y as nat) ==> post == (
        Editor { pre_justify_snapshot: post.pre_justify_snapshot, ..pre })
        &&& justify_applies(pre.text(), pre.cursor_y as nat) ==> ({
            let t = pre.text();
            let (a, b) = justify_range(t, pre.cursor_y as nat);
            let j = justified(t.subrange(a as int, b as int));
            &&& post.text() == inserted(removed(t, a as int, b as int), a as int, j)
            &&& post.placed_at(a + j.len())
            &&& post.status_message@ == "Justified --- Ctrl+U to undo"@
            &&& post == (Editor {
                buffer: post.buffer,
                cursor_x: post.cursor_x,
                cursor_y: post.cursor_y,
                desired_cursor_x: post.desired_cursor_x,
                pre_justify_snapshot: post.pre_justify_snapshot,
                is_justified: true,
                status_message: post.status_message,
                status_timed: true,
                status_fresh: true,
                is_modified: true,
                cache_stale: true,
                ..pre
            })
        })
    }

    /// Justify: saves the buffer and cursor for undoing, then refills the
    /// paragraph around the cursor (the run of lines holding non-whitespace
    /// around the cursor's line) into lines of at most 72 bytes, ending it
    /// with a line break, and leaves the cursor after it.  Nothing else
    /// happens in an empty buffer, on a blank line between blank lines, or
    /// when the paragraph has no words.
    #[verifier::spinoff_prover]
    #[verifier::rlimit(40)]
    pub fn justify(&mut self)
        requires
            old(self).wf(),
            old(self).within_limits(),
            !old(self).past_last_line(),
        ensures
            final(self).wf(),
            Self::justified_state(*old(self), *final(self)),
    {
        let ghost t = self.text();
        let ghost y0 = self.cursor_y as nat;
        self.pre_justify_snapshot = Some((rope_clone(&self.buffer), self.cursor_x, self.cursor_y));
        let count = rope_len_lines(&self.buffer);
        let len = rope_len_chars(&self.buffer);
        let max_y = if count > 0 { count - 1 } else { 0 };
        if max_y == 0 && len == 0 {
            return;
        }
        let (start_line, end_line) = self.paragraph_lines();
        if start_line == end_line && !self.line_has_non_ws(start_line) {
            return;
        }
        let start_char = rope_line_to_char(&self.buffer, start_line);
        let end_char = if end_line < count {
            rope_line_to_char(&self.buffer, end_line)
        } else {
            len
        };
        proof {
            lemma_start_mono(t, start_line as nat, end_line as nat);
        }
        let ghost a = line_start(t, start_line as nat);
        let ghost b = line_start(t, end_line as nat);
        assert(start_char == a && end_char == b);
        assert((a, b) == justify_range(t, y0));
        let piece = rope_slice_string(&self.buffer, start_char, end_char);
        let chars = chars_of(piece.as_str());
        let spans = split_words(&chars);
        if spans.len() == 0 {
            return;
        }
        let new_text = justify_text(&chars);
        proof {
            lemma_justified_len(chars@);
        }
        assert(chars@ == t.subrange(a as int, b as int));
        let new_str = string_of(&new_text);
        rope_remove(&mut self.buffer, start_char, end_char);
        rope_insert(&mut self.buffer, start_char, new_str.as_str());
        assert(self.text() == inserted(removed(t, a as int, b as int), a as int, new_text@));
        let total_chars = rope_len_chars(&self.buffer);
        let target = start_char + new_text.len();
        let safe_pos = if target <= total_chars { target } else { total_chars };
        self.place_cursor(safe_pos);
        self.is_justified = true;
        self.mark_modified();
        self.set_status(String::from_str("Justified --- Ctrl+U to undo"));
    }

    /// The state after an unjustify.
    pub open spec fn unjustified_state(pre: Editor, post: Editor) -> bool {
        &&& pre.pre_justify_snapshot is None ==> post == pre
        &&& pre.pre_justify_snapshot matches Some(s) ==> ({
            &&& post.text() == rope_text(s.0)
            &&& post.status_message@ == "Unjustified"@
            &&& post == (Editor {
                buffer: post.buffer,
                cursor_x: s.1,
                cursor_y: s.2,
                desired_cursor_x: s.1,
                pre_justify_snapshot: None,
                is_justified: false,
                status_message: post.status_message,
                status_timed: true,
                status_fresh: true,
                is_modified: true,
                cache_stale: true,
                ..pre
            })
        })
    }

    /// Undoes a justification: puts back the saved buffer and cursor (the
    /// goal column following the cursor) and says "Unjustified".  Nothing
    /// happens without a saved state.
    pub fn unjustify(&mut self)
        requires
            old(self).wf(),
        ensures
            final(self).wf(),
            Self::unjustified_state(*old(self), *final(self)),
    {
        if let Some((snapshot, x, y)) = self.pre_justify_snapshot.take() {
            self.buffer = snapshot;
            self.cursor_x = x;
            self.cursor_y = y;
            self.desired_cursor_x = x;
            self.is_justified = false;
            self.clear_cache();
            self.set_status(String::from_str("Unjustified"));
            self.mark_modified();
        }
    }

    /// The width of the line-number gutter: the digits of the line count
    /// and a space, when line numbers are shown.
    pub open spec fn gutter_width(&self) -> nat {
        if self.show_line_numbers {
            decimal(line_count(self.text())).len() + 1
        } else {
            0
        }
    }

    /// The columns left for text on a screen `cols` wide (at least one).
    pub open spec fn available_width(&self, cols: nat) -> nat {
        if cols >= self.gutter_width() + 1 {
            (cols - self.gutter_width()) as nat
        } else {
            1
        }
    }

    /// The columns in which text is drawn on a screen `cols` wide: those
    /// left of the gutter but the last.
    pub fn text_width(&self, cols: u16) -> (w: usize)
        requires
            self.within_limits(),
        ensures
            w == if cols >= self.gutter_width() + 1 {
                (cols - self.gutter_width() - 1) as nat
            } else {
                0
            },
    {
        let g = self.get_gutter_width();
        let c = cols as usize;
        if c >= g + 1 {
            c - g - 1
        } else {
            0
        }
    }

    /// The width of the line-number gutter (see `gutter_width`).
    pub fn get_gutter_width(&self) -> (g: usize)
        requires
            self.within_limits(),
        ensures
            g == self.gutter_width(),
            g <= self.text().len() + 3,
    {
        if self.show_line_numbers {
            let count = rope_len_lines(&self.buffer);
            proof {
                lemma_line_count_bound(self.text());
                lemma_decimal_len_bound(count as nat);
            }
            decimal_len(count) + 1
        } else {
            0
        }
    }

    /// The top line and horizontal offset that `scroll(cols, rows)` picks.
    pub open spec fn scrolled(&self, cols: u16, rows: u16) -> (nat, nat) {
        let visible: nat = if rows >= 4 { (rows - 4) as nat } else { 0 };
        let avail = self.available_width(cols as nat);
        let y = self.cursor_y as nat;
        let vx = self.visual_cursor_x();
        if self.soft_wrap {
            (wrapped_row(y, self.row_offset as nat, wrap_top(self.text(), y, vx / avail, visible, avail)), 0)
        } else {
            (unwrapped_row(y, self.row_offset as nat, visible), unwrapped_col(vx, self.col_offset as nat, avail))
        }
    }

    /// Scrolls so that the cursor is on screen, on a screen `cols` wide and
    /// `rows` high (four rows go to title, status and menus).  With soft
    /// wrap: no horizontal offset, and the top line moves down only as far
    /// as needed for the wrapped lines up to the cursor to fit.  Without:
    /// the top line follows the cursor, and the horizontal offset jumps by
    /// half a screen when the cursor leaves the visible columns.
    #[verifier::spinoff_prover]
    #[verifier::rlimit(30)]
    pub fn scroll(&mut self, cols: u16, rows: u16)
        requires
            old(self).wf(),
            old(self).within_limits(),
            old(self).row_offset <= usize::MAX / 16,
            old(self).col_offset <= usize::MAX / 16,
        ensures
            final(self).wf(),
            *final(self) == (Editor {
                row_offset: old(self).scrolled(cols, rows).0 as usize,
                col_offset: old(self).scrolled(cols, rows).1 as usize,
                ..*old(self)
            }),
    {
        let visible_rows: usize = if rows >= 4 { (rows - 4) as usize } else { 0 };
        let cols_u = cols as usize;
        proof {
            lemma_line_count_bound(self.text());
        }
        let gutter = self.get_gutter_width();
        let available_width: usize = if cols_u >= gutter + 1 { cols_u - gutter } else { 1 };
        if self.soft_wrap {
            assert(visible_rows <= 65535);
            self.scroll_wrapped(available_width, visible_rows);
        } else {
            self.scroll_unwrapped(available_width, visible_rows);
        }
    }

    /// Scrolling with soft wrap (see `scroll`).
    #[verifier::spinoff_prover]
    #[verifier::rlimit(30)]
    fn scroll_wrapped(&mut self, available_width: usize, visible_rows: usize)
        requires
            old(self).wf(),
            old(self).within_limits(),
            available_width >= 1,
            visible_rows <= 65535,
        ensures
            *final(self) == (Editor {
                row_offset: wrapped_row(
                    old(self).cursor_y as nat,
                    old(self).row_offset as nat,
                    wrap_top(
                        old(self).text(),
                        old(self).cursor_y as nat,
                        old(self).visual_cursor_x() / (available_width as nat),
                        visible_rows as nat,
                        available_width as nat,
                    ),
                ) as usize,
                col_offset: 0,
                ..*old(self)
            }),
    {
        self.col_offset = 0;
        if self.cursor_y < self.row_offset {
            self.row_offset = self.cursor_y;
        } else {
            let top = self.wrap_top_line(available_width, visible_rows);
            if self.row_offset < top {
                self.row_offset = top;
            }
        }
    }

    /// Scrolling without soft wrap (see `scroll`).
    #[verifier::spinoff_prover]
    #[verifier::rlimit(30)]
    fn scroll_unwrapped(&mut self, available_width: usize, visible_rows: usize)
        requires
            old(self).wf(),
            old(self).within_limits(),
            old(self).row_offset <= usize::MAX / 16,
            old(self).col_offset <= usize::MAX / 16,
            available_width <= usize::MAX / 16,
            visible_rows <= 65535,
        ensures
            *final(self) == (Editor {
                row_offset: unwrapped_row(
                    old(self).cursor_y as nat,
                    old(self).row_offset as nat,
                    visible_rows as nat,
                ) as usize,
                col_offset: unwrapped_col(
                    old(self).visual_cursor_x(),
                    old(self).col_offset as nat,
                    available_width as nat,
                ) as usize,
                ..*old(self)
            }),
    {
        proof {
            lemma_line_count_bound(self.text());
        }
        let y = self.cursor_y;
        let r0 = self.row_offset;
        let c0 = self.col_offset;
        let r = if y < r0 {
            y
        } else if y >= r0 + visible_rows {
            let keep = if visible_rows >= 1 {
                visible_rows - 1
            } else {
                0
            };
            if y >= keep {
                y - keep
            } else {
                0
            }
        } else {
            r0
        };
        let visual_x = self.get_visual_cursor_x();
        let half = available_width / 2;
        let c = if visual_x < c0 || visual_x >= c0 + available_width {
            if visual_x >= half {
                visual_x - half
            } else {
                0
            }
        } else {
            c0
        };
        self.row_offset = r;
        self.col_offset = c;
    }

    /// The top line that soft-wrapped scrolling needs: going up from the
    /// cursor's line while the wrapped rows still fit.
    fn wrap_top_line(&self, available_width: usize, visible_rows: usize) -> (top: usize)
        requires
            self.wf(),
            self.within_limits(),
            available_width >= 1,
            visible_rows <= 65535,
        ensures
            top == wrap_top(
                self.text(),
                self.cursor_y as nat,
                self.visual_cursor_x() / (available_width as nat),
                visible_rows as nat,
                available_width as nat,
            ),
            top <= self.cursor_y,
    {
        let vx = self.get_visual_cursor_x();
        let mut used = vx / available_width;
        let mut req = self.cursor_y;
        let ghost t = self.text();
        proof {
            lemma_line_count_bound(t);
        }
        let mut done = false;
        while req > 0 && !done
            invariant
                req <= self.cursor_y <= line_count(t),
                t == self.text(),
                self.within_limits(),
                available_width >= 1,
                visible_rows <= 65535,
                used <= visible_rows + 4 * t.len() + 1,
                wrap_top(t, req as nat, used as nat, visible_rows as nat, available_width as nat)
                    == wrap_top(
                    t,
                    self.cursor_y as nat,
                    vx as nat / (available_width as nat),
                    visible_rows as nat,
                    available_width as nat,
                ),
                done ==> req > 0 && wrap_top(
                    t,
                    req as nat,
                    used as nat,
                    visible_rows as nat,
                    available_width as nat,
                ) == req,
            decreases req, (if done { 0int } else { 1int }),
        {
            let prev_line = req - 1;
            let w = self.get_visual_line_width(prev_line);
            proof {
                self.lemma_line_len_fits(prev_line as nat);
                lemma_display_width_bound(line_text(t, prev_line as nat), true);
                assert(line_text(t, prev_line as nat).len() <= t.len());
            }
            proof {
                if w > 0 {
                    let ww = (w - 1) as int;
                    let aa = available_width as int;
                    assert(ww / aa <= ww) by (nonlinear_arith)
                        requires
                            ww >= 0,
                            aa >= 1,
                    ;
                }
            }
            let line_rows = if w == 0 { 1 } else { (w - 1) / available_width + 1 };
            if used + line_rows >= visible_rows {
                done = true;
            } else {
                used = used + line_rows;
                req = req - 1;
            }
        }
        req
    }

    /// A prompt `base` followed by the last search in brackets, if any, and
    /// a colon.
    pub open spec fn prompt_with_last(&self, base: Seq<char>) -> Seq<char> {
        match self.last_search {
            Some(l) => base + " ["@ + l@ + "]: "@,
            None => base + ": "@,
        }
    }

    /// Builds `prompt_with_last`.
    pub fn prompt_text_with_last(&self, base: &str) -> (s: String)
        ensures
            s@ == self.prompt_with_last(base@),
    {
        let mut v = chars_of(base);
        match &self.last_search {
            Some(l) => {
                push_str(&mut v, " [");
                push_str(&mut v, l.as_str());
                push_str(&mut v, "]: ");
            },
            None => {
                push_str(&mut v, ": ");
            },
        }
        string_of(&v)
    }

    /// The query that a search typed as `input` runs: the input, or the
    /// last search when the input is empty.
    pub open spec fn query_for(&self, input: Seq<char>) -> Option<Seq<char>> {
        if input.len() > 0 {
            Some(input)
        } else {
            match self.last_search {
                Some(l) => Some(l@),
                None => None,
            }
        }
    }

    /// Picks the query for a typed `input`: an empty input repeats the last
    /// search (or, without one, reports "Cancelled" and gives `None`); a
    /// non-empty input becomes the last search.
    pub fn resolve_query(&mut self, input: String) -> (q: Option<String>)
        requires
            old(self).wf(),
        ensures
            final(self).wf(),
            q is Some <==> old(self).query_for(input@) is Some,
            q matches Some(s) ==> old(self).query_for(input@) == Some(s@) && s@.len() > 0,
            input@.len() > 0 ==> *final(self) == (Editor {
                last_search: final(self).last_search,
                ..*old(self)
            }) && (final(self).last_search matches Some(l) && l@ == input@),
            input@.len() == 0 && old(self).last_search is Some ==> *final(self) == *old(self),
            input@.len() == 0 && old(self).last_search is None ==> final(self).status_message@
                == "Cancelled"@ && *final(self) == (Editor {
                status_message: final(self).status_message,
                status_timed: true,
                status_fresh: true,
                ..*old(self)
            }),
    {
        let v = chars_of(input.as_str());
        if v.len() == 0 {
            match &self.last_search {
                Some(l) => Some(l.clone()),
                None => {
                    self.set_status(String::from_str("Cancelled"));
                    None
                },
            }
        } else {
            self.last_search = Some(input.clone());
            Some(input)
        }
    }

    /// The text after the cursor where searching for `q` starts: one past
    /// the cursor when `q` occurs right at it.
    pub open spec fn search_start(&self, q: Seq<char>) -> nat {
        if occurs_at(self.text(), q, self.cursor_index() as int) {
            self.cursor_index() + 1
        } else {
            self.cursor_index()
        }
    }

    /// The cursor stands at a match of `q` starting at `p`, which is
    /// highlighted.
    pub open spec fn at_match(&self, p: nat, q: Seq<char>) -> bool {
        &&& self.placed_at(p)
        &&& self.highlight_match == Some(
            (self.cursor_y, self.cursor_x, (self.cursor_x + q.len()) as usize),
        )
    }

    /// The effect of searching for `q` from the cursor of `old`: the
    /// cursor moves to the first match after it (skipping one right at it)
    /// or, wrapping, to the first match in the text, which is highlighted;
    /// else the status says that nothing was found.
    pub open spec fn search_outcome(old: Editor, new: Editor, q: Seq<char>) -> bool {
        let t = old.text();
        let from = old.search_start(q);
        &&& new.text() == t
        &&& if occurs_from(t, q, from as int) {
            &&& exists|p: nat| is_first_match(t, q, from as int, p as int) && new.at_match(p, q)
            &&& new.status_message@ == Seq::<char>::empty()
            &&& !new.status_timed
            &&& new.status_fresh == old.status_fresh
        } else if occurs_from(t, q, 0) {
            &&& exists|p: nat| is_first_match(t, q, 0, p as int) && new.at_match(p, q)
            &&& new.status_message@ == "Search wrapped to top"@
            &&& new.status_timed && new.status_fresh
        } else {
            &&& new.status_message@ == "\""@ + q + "\" not found"@
            &&& new.status_timed && new.status_fresh
            &&& new.cursor_x == old.cursor_x
            &&& new.cursor_y == old.cursor_y
            &&& new.desired_cursor_x == old.desired_cursor_x
            &&& new.highlight_match == old.highlight_match
        }
        &&& new == (Editor {
            cursor_x: new.cursor_x,
            cursor_y: new.cursor_y,
            desired_cursor_x: new.desired_cursor_x,
            highlight_match: new.highlight_match,
            status_message: new.status_message,
            status_timed: new.status_timed,
            status_fresh: new.status_fresh,
            ..old
        })
    }

    /// Searches for `q` from the cursor (see `where_is`).
    #[verifier::spinoff_prover]
    #[verifier::rlimit(30)]
    fn run_search(&mut self, query: String)
        requires
            old(self).wf(),
            old(self).within_limits(),
        ensures
            final(self).wf(),
            Self::search_outcome(*old(self), *final(self), query@),
    {
        let ghost old_self = *self;
        let text = chars_of(rope_to_string(&self.buffer).as_str());
        let qv = chars_of(query.as_str());
        let idx = self.get_cursor_char_idx();
        let start_char = if matches_at(&text, &qv, idx) { idx + 1 } else { idx };
        match find_from(&text, &qv, start_char) {
            Some(pos) => {
                self.place_cursor(pos);
                self.highlight_match = Some((self.cursor_y, self.cursor_x, self.cursor_x + qv.len()));
                self.clear_status();
                assert(is_first_match(text@, qv@, start_char as int, pos as int) && self.at_match(pos as nat, qv@));
                assert(Self::search_outcome(old_self, *self, query@));
            },
            None => {
                match find_from(&text, &qv, 0) {
                    Some(pos) => {
                        self.place_cursor(pos);
                        self.highlight_match = Some(
                            (self.cursor_y, self.cursor_x, self.cursor_x + qv.len()),
                        );
                        self.set_status(String::from_str("Search wrapped to top"));
                        assert(is_first_match(text@, qv@, 0, pos as int) && self.at_match(pos as nat, qv@));
                        assert(Self::search_outcome(old_self, *self, query@));
                    },
                    None => {
                        let mut m: Vec<char> = Vec::new();
                        push_str(&mut m, "\"");
                        push_str(&mut m, query.as_str());
                        push_str(&mut m, "\" not found");
                        self.set_status(string_of(&m));
                    },
                }
            },
        }
    }

    /// Where Is: searches for the query typed at the prompt (`None` when
    /// the prompt was cancelled; an empty input repeats the last search).
    /// The cursor goes to the first match after the cursor (skipping a
    /// match right at it), else, wrapping around, to the first match in the
    /// text; the match is highlighted.  Reports a wrap, or that nothing was
    /// found.
    pub fn where_is(&mut self, input: Option<String>)
        requires
            old(self).wf(),
            old(self).within_limits(),
        ensures
            final(self).wf(),
            input is None ==> *final(self) == *old(self),
            input matches Some(s) ==> match old(self).query_for(s@) {
                None => final(self).status_message@ == "Cancelled"@ && *final(self) == (Editor {
                    status_message: final(self).status_message,
                    status_timed: true,
                    status_fresh: true,
                    ..*old(self)
                }),
                Some(q) => {
                    let mid = Editor { last_search: final(self).last_search, ..*old(self) };
                    &&& (final(self).last_search matches Some(l) && l@ == q)
                    &&& Self::search_outcome(mid, *final(self), q)
                },
            },
    {
        let s = match input {
            Some(s) => s,
            None => {
                return;
            },
        };
        let query = match self.resolve_query(s) {
            Some(q) => q,
            None => {
                return;
            },
        };
        self.run_search(query);
    }

    /// Starts a search-and-replace of `query` by `replacement` from the
    /// cursor.
    pub fn begin_replace(&self, query: String, replacement: String) -> (r: ReplaceSession)
        requires
            self.wf(),
        ensures
            r.query@ == query@,
            r.replacement@ == replacement@,
            r.current_idx == self.cursor_index(),
            r.changes_made == 0,
            !r.replace_all,
            !r.wrapped,
            r.pending is None,
            !r.finished,
    {
        ReplaceSession {
            query: chars_of(query.as_str()),
            replacement,
            current_idx: self.get_cursor_char_idx(),
            changes_made: 0,
            replace_all: false,
            wrapped: false,
            pending: None,
            finished: false,
        }
    }

    /// Replaces the match at `start..end` by `repl`, the cursor staying.
    fn replace_span(&mut self, start: usize, end: usize, repl: &str)
        requires
            old(self).wf(),
            start < end <= old(self).text().len(),
            old(self).cursor_index() == start,
            old(self).text().len() + repl@.len() <= usize::MAX,
        ensures
            final(self).wf(),
            final(self).text() == inserted(removed(old(self).text(), start as int, end as int), start as int, repl@),
            *final(self) == (Editor {
                buffer: final(self).buffer,
                is_modified: true,
                cache_stale: true,
                ..*old(self)
            }),
    {
        let ghost t = self.text();
        rope_remove(&mut self.buffer, start, end);
        rope_insert(&mut self.buffer, start, repl);
        proof {
            let t2 = self.text();
            assert(t2.subrange(0, start as int) == t.subrange(0, start as int));
            assert(self.cursor_y < line_count(t));
            lemma_prefix_keeps_cursor(t, t2, start as nat, self.cursor_x as nat, self.cursor_y as nat);
        }
        self.mark_modified();
    }

    /// Whether the text with one more replacement still fits the bounds
    /// that a replace step needs, and the count of changes can grow.
    pub fn replace_fits(&self, sess: &ReplaceSession) -> (b: bool)
        ensures
            b == (self.text().len() + sess.replacement@.len() <= usize::MAX / 16
                && sess.changes_made < usize::MAX),
    {
        let len = rope_len_chars(&self.buffer);
        let r = chars_of(sess.replacement.as_str());
        len <= usize::MAX / 16 && r.len() <= usize::MAX / 16 - len && sess.changes_made < usize::MAX
    }

    /// One step of a search-and-replace on a screen `cols` by `rows`: finds
    /// the next match from the session's position and moves the cursor onto
    /// it (scrolling to show it).  When replacing all, the match is
    /// replaced at once; otherwise it is highlighted and waits for an
    /// answer (`Ask`).  With no match, the search wraps to the top once;
    /// then the session ends, reporting how many matches were replaced.
    #[verifier::spinoff_prover]
    #[verifier::rlimit(30)]
    pub fn replace_step(&mut self, sess: &mut ReplaceSession, cols: u16, rows: u16) -> (step:
        ReplaceStep)
        requires
            old(self).wf(),
            old(self).within_limits(),
            old(self).row_offset <= usize::MAX / 16,
            old(self).col_offset <= usize::MAX / 16,
            old(sess).current_idx <= old(self).text().len(),
            old(sess).pending is None,
            !old(sess).finished,
            old(sess).query@.len() > 0,
            old(sess).changes_made < usize::MAX,
            old(self).text().len() + old(sess).replacement@.len() <= usize::MAX / 16,
        ensures
            final(self).wf(),
            final(sess).query == old(sess).query,
            final(sess).replacement == old(sess).replacement,
            final(sess).current_idx <= final(self).text().len(),
            ({
                let t = old(self).text();
                let q = old(sess).query@;
                let from = old(sess).current_idx as int;
                if occurs_from(t, q, from) {
                    exists|p: int| #![trigger is_first_match(t, q, from, p)] {
                        let y = line_of(t, p as nat);
                        let x = p - line_start(t, y);
                        let placed = Editor {
                            cursor_x: x as usize,
                            cursor_y: y as usize,
                            desired_cursor_x: x as usize,
                            ..*old(self)
                        };
                        let (r, c) = placed.scrolled(cols, rows);
                        &&& is_first_match(t, q, from, p)
                        &&& if old(sess).replace_all {
                            &&& step == ReplaceStep::Continue
                            &&& final(self).text() == inserted(
                                removed(t, p, p + q.len()),
                                p,
                                old(sess).replacement@,
                            )
                            &&& *final(self) == (Editor {
                                buffer: final(self).buffer,
                                row_offset: r as usize,
                                col_offset: c as usize,
                                is_modified: true,
                                cache_stale: true,
                                ..placed
                            })
                            &&& final(sess).current_idx == p + old(sess).replacement@.len()
                            &&& final(sess).changes_made == old(sess).changes_made + 1
                            &&& final(sess).pending is None
                            &&& !final(sess).finished
                            &&& final(sess).replace_all
                        } else {
                            &&& step == ReplaceStep::Ask
                            &&& *final(self) == (Editor {
                                row_offset: r as usize,
                                col_offset: c as usize,
                                highlight_match: Some((y as usize, x as usize, (x + q.len()) as usize)),
                                ..placed
                            })
                            &&& final(sess).pending == Some((p as usize, (p + q.len()) as usize))
                            &&& final(sess).current_idx == old(sess).current_idx
                            &&& final(sess).changes_made == old(sess).changes_made
                            &&& !final(sess).finished
                            &&& !final(sess).replace_all
                        }
                    }
                } else if old(sess).current_idx > 0 && !old(sess).wrapped {
                    &&& step == ReplaceStep::Continue
                    &&& *final(self) == *old(self)
                    &&& final(sess).current_idx == 0
                    &&& final(sess).wrapped
                    &&& final(sess).changes_made == old(sess).changes_made
                    &&& final(sess).pending is None
                    &&& !final(sess).finished
                    &&& final(sess).replace_all == old(sess).replace_all
                } else {
                    &&& step == ReplaceStep::Done
                    &&& final(sess).finished
                    &&& final(self).status_message@ == (if old(sess).changes_made > 0 {
                        "Replaced "@ + decimal(old(sess).changes_made as nat) + " occurrences"@
                    } else {
                        "No matches found"@
                    })
                    &&& *final(self) == (Editor {
                        status_message: final(self).status_message,
                        status_timed: true,
                        status_fresh: true,
                        ..*old(self)
                    })
                }
            }),
    {
        let ghost t = self.text();
        let ghost q = sess.query@;
        let ghost from = sess.current_idx as int;
        let text = chars_of(rope_to_string(&self.buffer).as_str());
        match find_from(&text, &sess.query, sess.current_idx) {
            Some(start_idx) => {
                let end_idx = start_idx + sess.query.len();
                self.place_cursor(start_idx);
                self.scroll(cols, rows);
                let step = if sess.replace_all {
                    self.replace_span(start_idx, end_idx, sess.replacement.as_str());
                    let rlen = chars_of(sess.replacement.as_str()).len();
                    sess.current_idx = start_idx + rlen;
                    sess.changes_made = sess.changes_made + 1;
                    ReplaceStep::Continue
                } else {
                    self.highlight_match = Some(
                        (self.cursor_y, self.cursor_x, self.cursor_x + sess.query.len()),
                    );
                    sess.pending = Some((start_idx, end_idx));
                    ReplaceStep::Ask
                };
                assert(is_first_match(t, q, from, start_idx as int));
                step
            },
            None => {
                if sess.current_idx > 0 && !sess.wrapped {
                    sess.current_idx = 0;
                    sess.wrapped = true;
                    ReplaceStep::Continue
                } else {
                    if sess.changes_made > 0 {
                        let mut m: Vec<char> = Vec::new();
                        push_str(&mut m, "Replaced ");
                        push_decimal(&mut m, sess.changes_made);
                        push_str(&mut m, " occurrences");
                        self.set_status(string_of(&m));
                    } else {
                        self.set_status(String::from_str("No matches found"));
                    }
                    sess.finished = true;
                    ReplaceStep::Done
                }
            },
        }
    }

    /// Acts on the answer to "Replace this instance?" (`None` when it was
    /// cancelled): `y` replaces the match and goes on after the
    /// replacement, `n` goes on after the match, `a` replaces it and all
    /// further matches without asking; cancelling ends the session with
    /// "Cancelled".  The match's highlight goes away.
    pub fn replace_answer(&mut self, sess: &mut ReplaceSession, answer: Option<char>) -> (step:
        ReplaceStep)
        requires
            old(self).wf(),
            old(sess).pending matches Some((a, b)) && occurs_at(
                old(self).text(),
                old(sess).query@,
                a as int,
            ) && b == a + old(sess).query@.len() && old(self).cursor_index() == a,
            old(sess).query@.len() > 0,
            old(sess).changes_made < usize::MAX,
            old(sess).current_idx <= old(self).text().len(),
            old(self).text().len() + old(sess).replacement@.len() <= usize::MAX / 16,
            answer matches Some(c) ==> c == 'y' || c == 'n' || c == 'a',
        ensures
            final(self).wf(),
            final(self).highlight_match is None,
            final(sess).pending is None,
            final(sess).query == old(sess).query,
            final(sess).replacement == old(sess).replacement,
            final(sess).current_idx <= final(self).text().len(),
            ({
                let (a, b) = old(sess).pending.unwrap();
                let t = old(self).text();
                match answer {
                    Some(c) => {
                        &&& step == ReplaceStep::Continue
                        &&& final(sess).replace_all == (old(sess).replace_all || c == 'a')
                        &&& if c == 'n' {
                            &&& *final(self) == (Editor { highlight_match: None, ..*old(self) })
                            &&& final(sess).current_idx == b
                            &&& final(sess).changes_made == old(sess).changes_made
                        } else {
                            &&& final(self).text() == inserted(
                                removed(t, a as int, b as int),
                                a as int,
                                old(sess).replacement@,
                            )
                            &&& *final(self) == (Editor {
                                buffer: final(self).buffer,
                                highlight_match: None,
                                is_modified: true,
                                cache_stale: true,
                                ..*old(self)
                            })
                            &&& final(sess).current_idx == a + old(sess).replacement@.len()
                            &&& final(sess).changes_made == old(sess).changes_made + 1
                        }
                    },
                    None => {
                        &&& step == ReplaceStep::Done
                        &&& final(sess).finished
                        &&& final(self).status_message@ == "Cancelled"@
                        &&& *final(self) == (Editor {
                            highlight_match: None,
                            status_message: final(self).status_message,
                            status_timed: true,
                            status_fresh: true,
                            ..*old(self)
                        })
                    },
                }
            }),
    {
        self.highlight_match = None;
        let (start_idx, end_idx) = match sess.pending {
            Some(p) => p,
            None => {
                return ReplaceStep::Done;
            },
        };
        sess.pending = None;
        match answer {
            Some(c) => {
                if c == 'n' {
                    sess.current_idx = end_idx;
                } else {
                    if c == 'a' {
                        sess.replace_all = true;
                    }
                    self.replace_span(start_idx, end_idx, sess.replacement.as_str());
                    let rlen = chars_of(sess.replacement.as_str()).len();
                    sess.current_idx = start_idx + rlen;
                    sess.changes_made = sess.changes_made + 1;
                }
                ReplaceStep::Continue
            },
            None => {
                self.set_status(String::from_str("Cancelled"));
                sess.finished = true;
                ReplaceStep::Done
            },
        }
    }
}

} // verus!
